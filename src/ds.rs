//! The signature scheme over the digest of a stream, in the subgroup of
//! order `q` that `g` generates modulo the prime `p`.

use crate::bignum::{digits_value, is_decimal_text, mod_pow, text_value, BigNum};
use crate::group::{generator_g, lemma_generator_order, modulus_p, order_q};
use crate::hash::{digest, h_file};
use crate::utils::push_all;
use vstd::arithmetic::div_mod::{
    lemma_add_mod_noop_right, lemma_fundamental_div_mod, lemma_mul_mod_noop_left,
    lemma_mul_mod_noop_right, lemma_sub_mod_noop,
};
use vstd::arithmetic::power::{lemma1_pow, lemma_pow_adds, lemma_pow_mod_noop, lemma_pow_multiplies, pow};
use vstd::prelude::*;

verus! {

/// A digest read as an integer: each byte one base-2^32 digit, the first
/// the least significant.
pub open spec fn digest_value(d: Seq<u8>) -> nat {
    digits_value(d.map_values(|b: u8| b as u32))
}

/// `b` to the power `e`, modulo `p`.
pub open spec fn pow_p(b: nat, e: nat) -> nat {
    (pow(b as int, e) % (modulus_p() as int)) as nat
}

/// The public key of the private key `x`.
pub open spec fn public_key(x: nat) -> nat {
    pow_p(generator_g(), x)
}

/// The first half of a signature made with the ephemeral `k`.
pub open spec fn sig_r(k: nat) -> nat {
    pow_p(generator_g(), k)
}

/// The second half of a signature of the digest value `h` under the private
/// key `x`, made with the ephemeral `k` and first half `r`.
pub open spec fn sig_s(h: nat, k: nat, r: nat, x: nat) -> nat {
    ((h * k - (r % order_q()) * x) % (order_q() as int)) as nat
}

/// Whether `(r, s)` is a signature of the digest value `h` under the public
/// key `y`.
pub open spec fn verifies(h: nat, y: nat, r: nat, s: nat) -> bool {
    pow_p(r, h) == (pow_p(generator_g(), s) * pow_p(y, r % order_q())) % modulus_p()
}

/// The line feed that ends a line.
pub const NEWLINE: u8 = 10;

/// Whether `t` is the two decimal lines of the signature `(r, s)`, `r` first,
/// parted by one line feed.
pub open spec fn signature_text(t: Seq<u8>, r: nat, s: nat) -> bool {
    exists|i: int|
        0 <= i < t.len() && t[i] == NEWLINE && is_decimal_text(#[trigger] t.subrange(0, i))
            && text_value(t.subrange(0, i)) == r && is_decimal_text(t.subrange(i + 1, t.len() as int))
            && text_value(t.subrange(i + 1, t.len() as int)) == s
}

/// `t` without one line feed at its end, where it has one.
pub open spec fn strip_newline(t: Seq<u8>) -> Seq<u8> {
    if t.len() > 0 && t.last() == NEWLINE {
        t.drop_last()
    } else {
        t
    }
}

/// Whether `t` is the stream `c`, a line feed, and the text of the signature
/// `(r, s)`.
pub open spec fn signed_text(t: Seq<u8>, c: Seq<u8>, r: nat, s: nat) -> bool {
    t.len() > c.len() && t.subrange(0, c.len() as int) == c && t[c.len() as int] == NEWLINE
        && signature_text(t.subrange(c.len() + 1int, t.len() as int), r, s)
}

/// Decimal text holds no line feed.
proof fn lemma_decimal_no_newline(t: Seq<u8>, j: int)
    requires
        is_decimal_text(t),
        0 <= j < t.len(),
    ensures
        t[j] != NEWLINE,
{
    assert(crate::bignum::is_ascii_digit(t[j]));
}

/// The first line feed of `t` at or after `from`, or `t.len()` where there
/// is none.
fn find_newline(t: &[u8], from: usize) -> (i: usize)
    requires
        from <= t@.len(),
    ensures
        from <= i <= t@.len(),
        i < t@.len() ==> t@[i as int] == NEWLINE,
        forall|j: int| from <= j < i ==> t@[j] != NEWLINE,
{
    let mut i: usize = from;
    while i < t.len()
        invariant
            from <= i <= t@.len(),
            forall|j: int| from <= j < i ==> t@[j] != NEWLINE,
        decreases t@.len() - i,
    {
        if t[i] == NEWLINE {
            return i;
        }
        i = i + 1;
    }
    i
}

/// The last line feed of `t` before `end`.
fn find_newline_back(t: &[u8], end: usize) -> (i: Option<usize>)
    requires
        end <= t@.len(),
    ensures
        match i {
            Some(i) => i < end && t@[i as int] == NEWLINE && forall|j: int|
                i < j < end ==> t@[j] != NEWLINE,
            None => forall|j: int| 0 <= j < end ==> t@[j] != NEWLINE,
        },
{
    let mut k: usize = end;
    while k > 0
        invariant
            k <= end <= t@.len(),
            forall|j: int| k <= j < end ==> t@[j] != NEWLINE,
        decreases k,
    {
        if t[k - 1] == NEWLINE {
            return Some(k - 1);
        }
        k = k - 1;
    }
    None
}

/// Where `t` is a signature text, its line feed is its only one.
proof fn lemma_signature_text_newline(t: Seq<u8>, r: nat, s: nat) -> (i: int)
    requires
        signature_text(t, r, s),
    ensures
        0 <= i < t.len(),
        t[i] == NEWLINE,
        forall|j: int| 0 <= j < t.len() && j != i ==> t[j] != NEWLINE,
        is_decimal_text(t.subrange(0, i)),
        text_value(t.subrange(0, i)) == r,
        is_decimal_text(t.subrange(i + 1, t.len() as int)),
        text_value(t.subrange(i + 1, t.len() as int)) == s,
{
    let i = choose|i: int|
        0 <= i < t.len() && t[i] == NEWLINE && is_decimal_text(#[trigger] t.subrange(0, i))
            && text_value(t.subrange(0, i)) == r && is_decimal_text(
            t.subrange(i + 1, t.len() as int),
        ) && text_value(t.subrange(i + 1, t.len() as int)) == s;
    assert forall|j: int| 0 <= j < t.len() && j != i implies t[j] != NEWLINE by {
        if j < i {
            lemma_decimal_no_newline(t.subrange(0, i), j);
        } else {
            lemma_decimal_no_newline(t.subrange(i + 1, t.len() as int), j - i - 1);
        }
    }
    i
}

/// A text spells at most one signature.
pub proof fn lemma_signature_text_unique(t: Seq<u8>, r1: nat, s1: nat, r2: nat, s2: nat)
    requires
        signature_text(t, r1, s1),
        signature_text(t, r2, s2),
    ensures
        r1 == r2,
        s1 == s2,
{
    let i = lemma_signature_text_newline(t, r1, s1);
    let j = lemma_signature_text_newline(t, r2, s2);
    assert(i == j);
}

/// A signature.
pub struct DigSig {
    pub r: BigNum,
    pub s: BigNum,
}

impl DigSig {
    /// The signature `(r, s)`.
    pub fn new(r: BigNum, s: BigNum) -> (d: DigSig)
        ensures
            d.r@ == r@,
            d.s@ == s@,
    {
        DigSig { r, s }
    }

    /// Signs the stream `data` under the private key `x` with an ephemeral
    /// drawn at random from `[1, q)`; returns the public key and the
    /// signature.
    pub fn of_file(data: &[u8], x: &BigNum) -> (res: (BigNum, DigSig))
        ensures
            res.0@ == public_key(x@),
            exists|k: nat|
                1 <= k < order_q() && res.1.r@ == sig_r(k) && res.1.s@ == sig_s(
                    digest_value(digest(data@)),
                    k,
                    res.1.r@,
                    x@,
                ),
    {
        let (_, q) = DigSig::get_p_and_q();
        let k = DigSig::random_k(1, &q);
        DigSig::of_file_with_k(data, x, &k)
    }

    /// Signs the stream `data` under the private key `x` with the ephemeral
    /// `k`; returns the public key and the signature.
    pub fn of_file_with_k(data: &[u8], x: &BigNum, k: &BigNum) -> (res: (BigNum, DigSig))
        ensures
            res.0@ == public_key(x@),
            res.1.r@ == sig_r(k@),
            res.1.s@ == sig_s(digest_value(digest(data@)), k@, res.1.r@, x@),
    {
        let (p, q) = DigSig::get_p_and_q();
        let h = DigSig::calc_h(data);
        let g = DigSig::calc_g(&p, &q);
        let y = DigSig::calc_y(&p, &g, x);
        let r = DigSig::calc_r(&p, k, &g);
        let s = DigSig::calc_s(&q, k, &h, &r, x);
        (y, DigSig { r, s })
    }

    /// Whether this is a signature of the stream `data` under the public key
    /// `y`.
    pub fn verify_file(self, data: &[u8], y: BigNum) -> (ok: bool)
        ensures
            ok == verifies(digest_value(digest(data@)), y@, self.r@, self.s@),
    {
        let (p, q) = DigSig::get_p_and_q();
        let g = DigSig::calc_g(&p, &q);
        let h = DigSig::calc_h(data);
        let rho = DigSig::calc_rho(&self.r, &q);
        let lhs = mod_pow(self.r, h, p.clone_num());
        let gs = mod_pow(g, self.s, p.clone_num());
        let yr = mod_pow(y, rho, p.clone_num());
        let rhs = BigNum::mul_mod(&gs, &yr, &p);
        lhs.equals(&rhs)
    }

    /// The text of the signature: `r` and `s` in decimal, on two lines.
    pub fn to_file(&self) -> (t: Vec<u8>)
        ensures
            signature_text(t@, self.r@, self.s@),
    {
        let r_str = self.r.to_decimal();
        let s_str = self.s.to_decimal();
        let mut t: Vec<u8> = Vec::new();
        push_all(&mut t, r_str.as_slice());
        t.push(NEWLINE);
        push_all(&mut t, s_str.as_slice());
        let ghost i = r_str@.len() as int;
        assert(t@.subrange(0, i) =~= r_str@);
        assert(t@.subrange(i + 1, t@.len() as int) =~= s_str@);
        t
    }

    /// The signature that two decimal lines spell; nothing where the text
    /// is not two such lines. One line feed at the end is allowed.
    pub fn from_file(content: &[u8]) -> (d: Option<DigSig>)
        ensures
            match d {
                Some(d) => signature_text(strip_newline(content@), d.r@, d.s@),
                None => forall|r: nat, s: nat| !signature_text(strip_newline(content@), r, s),
            },
    {
        let n: usize = content.len();
        let body_len: usize = if n > 0 && content[n - 1] == NEWLINE {
            n - 1
        } else {
            n
        };
        let mut body: Vec<u8> = Vec::new();
        push_all(&mut body, &content[0..body_len]);
        assert(body@ =~= strip_newline(content@));
        DigSig::parse_lines(body.as_slice())
    }

    /// The signature of the two decimal lines `t`, with no line feed at the
    /// end.
    fn parse_lines(t: &[u8]) -> (d: Option<DigSig>)
        ensures
            match d {
                Some(d) => signature_text(t@, d.r@, d.s@),
                None => forall|r: nat, s: nat| !signature_text(t@, r, s),
            },
    {
        let n: usize = t.len();
        let i = find_newline(t, 0);
        if i == n {
            assert forall|r: nat, s: nat| !signature_text(t@, r, s) by {
                if signature_text(t@, r, s) {
                    let j = choose|j: int|
                        0 <= j < t@.len() && t@[j] == NEWLINE && is_decimal_text(
                            #[trigger] t@.subrange(0, j),
                        ) && text_value(t@.subrange(0, j)) == r && is_decimal_text(
                            t@.subrange(j + 1, t@.len() as int),
                        ) && text_value(t@.subrange(j + 1, t@.len() as int)) == s;
                    assert(t@[j] != NEWLINE);
                }
            }
            return None;
        }
        let r = BigNum::from_decimal(&t[0..i]);
        let s = BigNum::from_decimal(&t[i + 1..n]);
        proof {
            assert forall|rv: nat, sv: nat| #[trigger] signature_text(t@, rv, sv) implies (r.is_some()
                && s.is_some() && r.unwrap()@ == rv && s.unwrap()@ == sv) by {
                let j = choose|j: int|
                    0 <= j < t@.len() && t@[j] == NEWLINE && is_decimal_text(
                        #[trigger] t@.subrange(0, j),
                    ) && text_value(t@.subrange(0, j)) == rv && is_decimal_text(
                        t@.subrange(j + 1, t@.len() as int),
                    ) && text_value(t@.subrange(j + 1, t@.len() as int)) == sv;
                if j < i {
                    assert(t@[j] != NEWLINE);
                }
                if j > i {
                    lemma_decimal_no_newline(t@.subrange(0, j), i as int);
                }
                assert(j == i);
            }
        }
        match (r, s) {
            (Some(r), Some(s)) => Some(DigSig { r, s }),
            _ => None,
        }
    }

    /// The stream `content` with the signature appended: a line feed, then
    /// the text of the signature.
    pub fn concat_ds(&self, content: &[u8]) -> (t: Vec<u8>)
        ensures
            signed_text(t@, content@, self.r@, self.s@),
    {
        let sig = self.to_file();
        let mut t: Vec<u8> = Vec::new();
        push_all(&mut t, content);
        t.push(NEWLINE);
        push_all(&mut t, sig.as_slice());
        assert(t@.subrange(0, content@.len() as int) =~= content@);
        assert(t@.subrange(content@.len() + 1int, t@.len() as int) =~= sig@);
        t
    }

    /// Parts a signed stream into the stream and its signature: the last two
    /// lines hold the signature; nothing where they do not.
    pub fn read_ds(data: &[u8]) -> (res: Option<(Vec<u8>, DigSig)>)
        ensures
            match res {
                Some((c, d)) => signed_text(data@, c@, d.r@, d.s@),
                None => forall|c: Seq<u8>, r: nat, s: nat| !signed_text(data@, c, r, s),
            },
    {
        let n: usize = data.len();
        let last = find_newline_back(data, n);
        let b: usize = match last {
            Some(b) => b,
            None => {
                proof {
                    assert forall|c: Seq<u8>, r: nat, s: nat| !signed_text(data@, c, r, s) by {
                        if signed_text(data@, c, r, s) {
                            assert(data@[c.len() as int] == NEWLINE);
                        }
                    }
                }
                return None;
            },
        };
        let before = find_newline_back(data, b);
        let a: usize = match before {
            Some(a) => a,
            None => {
                proof {
                    assert forall|c: Seq<u8>, r: nat, s: nat| !signed_text(data@, c, r, s) by {
                        if signed_text(data@, c, r, s) {
                            let t = data@.subrange(c.len() + 1int, data@.len() as int);
                            let i = lemma_signature_text_newline(t, r, s);
                            let j = c.len() + 1 + i;
                            assert(data@[j] == t[i]);
                            if j < b {
                                assert(data@[c.len() as int] == NEWLINE);
                            } else if j > b {
                                assert(data@[b as int] == t[b - c.len() - 1]);
                            } else {
                                assert(data@[c.len() as int] == NEWLINE);
                            }
                        }
                    }
                }
                return None;
            },
        };
        let mut content: Vec<u8> = Vec::new();
        push_all(&mut content, &data[0..a]);
        let sig = DigSig::parse_lines(&data[a + 1..n]);
        proof {
            assert forall|c: Seq<u8>, r: nat, s: nat| #[trigger] signed_text(data@, c, r, s) implies c.len()
                == a && sig.is_some() by {
                let t = data@.subrange(c.len() + 1int, data@.len() as int);
                let i = lemma_signature_text_newline(t, r, s);
                let j = c.len() + 1 + i;
                assert(data@[j] == t[i]);
                if j < b {
                    assert(data@[b as int] == t[b - c.len() - 1]);
                } else if j > b {
                    if b > c.len() {
                        assert(data@[b as int] == t[b - c.len() - 1]);
                    }
                }
                assert(j == b);
                if c.len() < a {
                    assert(data@[a as int] == t[a - c.len() - 1]);
                }
                assert(c.len() == a);
                assert(data@.subrange(a + 1int, n as int) =~= t);
            }
        }
        assert(data@.subrange(0, a as int) =~= content@);
        match sig {
            Some(d) => Some((content, d)),
            None => None,
        }
    }

    /// The text of a private or public key: the key in decimal.
    pub fn key_to_file(k: &BigNum) -> (t: Vec<u8>)
        ensures
            is_decimal_text(t@),
            text_value(t@) == k@,
    {
        k.to_decimal()
    }

    /// The key that decimal text spells; nothing where the text is not
    /// decimal.
    pub fn key_from_file(content: &[u8]) -> (k: Option<BigNum>)
        ensures
            k.is_some() == is_decimal_text(content@),
            k.is_some() ==> k.unwrap()@ == text_value(content@),
    {
        BigNum::from_decimal(content)
    }

    /// A private key drawn at random from `[2, q)`.
    pub fn rnd_key() -> (x: BigNum)
        ensures
            2 <= x@ < order_q(),
    {
        let (_, q) = DigSig::get_p_and_q();
        DigSig::random_k(2, &q)
    }

    /// The modulus and the order of the subgroup.
    fn get_p_and_q() -> (res: (BigNum, BigNum))
        ensures
            res.0@ == modulus_p(),
            res.1@ == order_q(),
    {
        let p = BigNum::from_digits(
            vec![
                4004782697u32,
                4014744800,
                2338512165,
                767728544,
                1328929242,
                2379382835,
                2627037224,
                3715584394,
            ],
        );
        let q = BigNum::from_digits(vec![1328929083u32, 2379382835, 2627037224, 3715584394]);
        proof {
            reveal_with_fuel(digits_value, 9);
        }
        (p, q)
    }

    /// A number drawn at random from `[from, q)`.
    fn random_k(from: u32, q: &BigNum) -> (k: BigNum)
        requires
            from < q@,
        ensures
            from <= k@ < q@,
    {
        let low = BigNum::from_u32(from);
        BigNum::random_range(&low, q)
    }

    /// The digest of `data` as an integer.
    fn calc_h(data: &[u8]) -> (h: BigNum)
        ensures
            h@ == digest_value(digest(data@)),
    {
        let h_array = h_file(data);
        let mut h_vec: Vec<u32> = Vec::new();
        let mut i: usize = 0;
        while i < 16
            invariant
                i <= 16,
                h_vec@ == h_array@.subrange(0, i as int).map_values(|b: u8| b as u32),
            decreases 16 - i,
        {
            h_vec.push(h_array[i] as u32);
            i = i + 1;
            assert(h_vec@ =~= h_array@.subrange(0, i as int).map_values(|b: u8| b as u32));
        }
        assert(h_array@.subrange(0, 16) =~= h_array@);
        BigNum::from_digits(h_vec)
    }

    /// The second half of a signature, in `[0, q)`.
    fn calc_s(q: &BigNum, k: &BigNum, h: &BigNum, r: &BigNum, x: &BigNum) -> (s: BigNum)
        requires
            q@ > 0,
        ensures
            s@ == (h@ * k@ - (r@ % q@) * x@) % (q@ as int),
    {
        let rho = DigSig::calc_rho(r, q);
        let a = BigNum::mul_mod(h, k, q);
        let b = BigNum::mul_mod(&rho, x, q);
        let s = BigNum::sub_mod(&a, &b, q);
        proof {
            lemma_sub_mod_noop((h@ * k@) as int, (rho@ * x@) as int, q@ as int);
        }
        s
    }

    /// The first half of a signature reduced modulo `q`.
    fn calc_rho(r: &BigNum, q: &BigNum) -> (rho: BigNum)
        requires
            q@ > 0,
        ensures
            rho@ == r@ % q@,
    {
        BigNum::rem(r, q)
    }

    /// The public key of `x`.
    fn calc_y(p: &BigNum, g: &BigNum, x: &BigNum) -> (y: BigNum)
        requires
            p@ > 0,
        ensures
            y@ == pow(g@ as int, x@) % (p@ as int),
    {
        mod_pow(g.clone_num(), x.clone_num(), p.clone_num())
    }

    /// The first half of a signature made with the ephemeral `k`.
    fn calc_r(p: &BigNum, k: &BigNum, g: &BigNum) -> (r: BigNum)
        requires
            p@ > 0,
        ensures
            r@ == pow(g@ as int, k@) % (p@ as int),
    {
        mod_pow(g.clone_num(), k.clone_num(), p.clone_num())
    }

    /// The generator of the subgroup.
    fn calc_g(_p: &BigNum, _q: &BigNum) -> (g: BigNum)
        ensures
            g@ == generator_g(),
    {
        let g = BigNum::from_digits(
            vec![
                1621844601u32,
                2615043997,
                262253232,
                3555817118,
                2510107341,
                1981715099,
                253572427,
                1164177510,
            ],
        );
        proof {
            reveal_with_fuel(digits_value, 9);
        }
        g
    }
}

/// Powers of `g` modulo `p` depend on the exponent modulo `q` alone.
pub proof fn lemma_exponent_mod_order(a: nat)
    ensures
        pow(generator_g() as int, a) % (modulus_p() as int) == pow(
            generator_g() as int,
            a % order_q(),
        ) % (modulus_p() as int),
{
    let g = generator_g() as int;
    let p = modulus_p() as int;
    let q = order_q();
    let n = a / q;
    let rem = a % q;
    lemma_fundamental_div_mod(a as int, q as int);
    assert(a == q * n + rem);
    lemma_pow_adds(g, q * n, rem);
    lemma_pow_multiplies(g, q, n);
    lemma_generator_order();
    lemma_pow_mod_noop(pow(g, q), n, p);
    lemma1_pow(n);
    let big = pow(g, q * n);
    assert(big % p == 1);
    lemma_mul_mod_noop_left(big, pow(g, rem), p);
}

/// A signature verifies against the stream it was made of and the public
/// key of the private key it was made with, whatever the ephemeral.
pub proof fn lemma_sign_then_verify(data: Seq<u8>, x: nat, k: nat)
    ensures
        verifies(
            digest_value(digest(data)),
            public_key(x),
            sig_r(k),
            sig_s(digest_value(digest(data)), k, sig_r(k), x),
        ),
{
    let g = generator_g() as int;
    let p = modulus_p() as int;
    let q = order_q() as int;
    let h = digest_value(digest(data));
    let r = sig_r(k);
    let rho = r % order_q();
    let y = public_key(x);
    let s = sig_s(h, k, r, x);
    // the left side: g^(k h)
    lemma_pow_mod_noop(pow(g, k), h, p);
    lemma_pow_multiplies(g, k, h);
    lemma_exponent_mod_order(k * h);
    // the right side: g^(s + x rho)
    lemma_pow_mod_noop(pow(g, x), rho, p);
    lemma_pow_multiplies(g, x, rho);
    let gs = pow(g, s);
    let gx = pow(g, x * rho);
    lemma_mul_mod_noop_left(gs, gx % p, p);
    lemma_mul_mod_noop_right(gs, gx, p);
    lemma_pow_adds(g, s, x * rho);
    lemma_exponent_mod_order(s + x * rho);
    // the exponents agree modulo q
    let e = h * k - rho * x;
    assert(s == e % q);
    lemma_add_mod_noop_right((x * rho) as int, e, q);
    assert(((s + x * rho) as int) % q == (e + x * rho) % q);
    assert(e + x * rho == k * h) by (nonlinear_arith)
        requires
            e == h * k - rho * x,
    ;
}

} // verus!
