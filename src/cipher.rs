//! The block cipher: a Feistel network over a 16-byte block, keyed by a
//! 16, 24 or 32-byte key.

use crate::utils::{
    concat_arrays_u8, concat_u8, nth_byte, part, xor_array, xor_seq, B16, B24, B32, B8,
};
use vstd::arithmetic::power2::lemma2_to64;
use vstd::prelude::*;
use vstd::slice::slice_to_vec;

verus! {

/// The substitution table of the round function.
pub const S_BLOCK: [u8; 256] = [
    1, 2, 4, 8, 16, 32, 64, 128, 101, 202, 241, 135, 107, 214, 201, 247,
    139, 115, 230, 169, 55, 110, 220, 221, 223, 219, 211, 195, 227, 163, 35, 70,
    140, 125, 250, 145, 71, 142, 121, 242, 129, 103, 206, 249, 151, 75, 150, 73,
    146, 65, 130, 97, 194, 225, 167, 43, 86, 172, 61, 122, 244, 141, 127, 254,
    153, 87, 174, 57, 114, 228, 173, 63, 126, 252, 157, 95, 190, 25, 50, 100,
    200, 245, 143, 123, 246, 137, 119, 238, 185, 23, 46, 92, 184, 21, 42, 84,
    168, 53, 106, 212, 205, 255, 155, 83, 166, 41, 82, 164, 45, 90, 180, 13,
    26, 52, 104, 208, 197, 239, 187, 19, 38, 76, 152, 85, 170, 49, 98, 196,
    237, 191, 27, 54, 108, 216, 213, 207, 251, 147, 67, 134, 105, 210, 193, 231,
    171, 51, 102, 204, 253, 159, 91, 182, 9, 18, 36, 72, 144, 69, 138, 113,
    226, 161, 39, 78, 156, 93, 186, 17, 34, 68, 136, 117, 234, 177, 7, 14,
    28, 56, 112, 224, 165, 47, 94, 188, 29, 58, 116, 232, 181, 15, 30, 60,
    120, 240, 133, 111, 222, 217, 215, 203, 243, 131, 99, 198, 233, 183, 11, 22,
    44, 88, 176, 5, 10, 20, 40, 80, 160, 37, 74, 148, 77, 154, 81, 162,
    33, 66, 132, 109, 218, 209, 199, 235, 179, 3, 6, 12, 24, 48, 96, 192,
    229, 175, 59, 118, 236, 189, 31, 62, 124, 248, 149, 79, 158, 89, 178, 0,
];

/// One key of the cipher; the variant fixes the key size.
#[derive(Clone, Copy)]
pub enum Magenta {
    Key128(B16),
    Key192(B24),
    Key256(B32),
}

/// The substitution of one byte.
pub open spec fn sub_byte(x: u8) -> u8 {
    S_BLOCK@[x as int]
}

/// The nonlinear combine of two bytes.
pub open spec fn combine(x: u8, y: u8) -> u8 {
    sub_byte(x ^ sub_byte(y))
}

/// The permutation transform: byte `i` and byte `i + 8` are combined both
/// ways into bytes `2i` and `2i + 1`.
pub open spec fn perm(x: Seq<u8>) -> Seq<u8> {
    Seq::new(
        16,
        |i: int|
            if i % 2 == 0 {
                combine(x[i / 2], x[i / 2 + 8])
            } else {
                combine(x[i / 2 + 8], x[i / 2])
            },
    )
}

/// The mixing transform: four permutation transforms.
pub open spec fn mix(x: Seq<u8>) -> Seq<u8> {
    perm(perm(perm(perm(x))))
}

/// The even-indexed bytes of a 16-byte sequence.
pub open spec fn evens(x: Seq<u8>) -> Seq<u8> {
    Seq::new(8, |i: int| x[2 * i])
}

/// The odd-indexed bytes of a 16-byte sequence.
pub open spec fn odds(x: Seq<u8>) -> Seq<u8> {
    Seq::new(8, |i: int| x[2 * i + 1])
}

/// The recursive mixing transform at depth `r`.
pub open spec fn mix_depth(r: nat, x: Seq<u8>) -> Seq<u8>
    decreases r,
{
    if r <= 1 {
        mix(x)
    } else {
        let prev = mix_depth((r - 1) as nat, x);
        mix(
            xor_seq(evens(prev), x.subrange(0, 8)) + xor_seq(odds(prev), x.subrange(8, 16)),
        )
    }
}

/// The round function: the even half of the mixing transform at depth three.
pub open spec fn round_fn(x: Seq<u8>) -> Seq<u8> {
    evens(mix_depth(3, x))
}

/// One Feistel round of the 16-byte state `x` under the 8-byte sub-key `k`.
pub open spec fn feistel(x: Seq<u8>, k: Seq<u8>) -> Seq<u8> {
    x.subrange(8, 16) + xor_seq(x.subrange(0, 8), round_fn(x.subrange(8, 16) + k))
}

/// The Feistel rounds under the sub-keys `ks`, first to last.
pub open spec fn feistel_rounds(x: Seq<u8>, ks: Seq<Seq<u8>>) -> Seq<u8>
    decreases ks.len(),
{
    if ks.len() == 0 {
        x
    } else {
        feistel(feistel_rounds(x, ks.drop_last()), ks.last())
    }
}

/// The upper and lower halves of a 16-byte sequence, exchanged.
pub open spec fn swap_halves(x: Seq<u8>) -> Seq<u8> {
    x.subrange(8, 16) + x.subrange(0, 8)
}

/// Which sub-key each round uses, counted from one, for a key of `key_len`
/// bytes.
pub open spec fn key_schedule(key_len: nat) -> Seq<usize> {
    if key_len == 16 {
        seq![1usize, 1, 2, 2, 1, 1]
    } else if key_len == 24 {
        seq![1usize, 2, 3, 3, 2, 1]
    } else {
        seq![1usize, 2, 3, 4, 4, 3, 2, 1]
    }
}

/// Sub-key `j` of `key`, counted from one.
pub open spec fn sub_key_of(key: Seq<u8>, j: int) -> Seq<u8> {
    key.subrange(8 * (j - 1), 8 * j)
}

/// The sub-keys of the rounds under `key`, in order.
pub open spec fn round_keys_of(key: Seq<u8>) -> Seq<Seq<u8>> {
    key_schedule(key.len()).map_values(|j: usize| sub_key_of(key, j as int))
}

/// The encryption of the 16-byte block `m` under a key of 16, 24 or 32
/// bytes.
pub open spec fn encrypt_block(key: Seq<u8>, m: Seq<u8>) -> Seq<u8> {
    feistel_rounds(m, round_keys_of(key))
}

/// The decryption of the 16-byte block `m` under a key of 16, 24 or 32
/// bytes.
pub open spec fn decrypt_block(key: Seq<u8>, m: Seq<u8>) -> Seq<u8> {
    swap_halves(encrypt_block(key, swap_halves(m)))
}

impl Magenta {
    /// The key bytes.
    pub open spec fn key_view(&self) -> Seq<u8> {
        match self {
            Magenta::Key128(k) => k@,
            Magenta::Key192(k) => k@,
            Magenta::Key256(k) => k@,
        }
    }

    /// The number of 8-byte sub-keys.
    pub open spec fn parts_count(&self) -> nat {
        match self {
            Magenta::Key128(_) => 2,
            Magenta::Key192(_) => 3,
            Magenta::Key256(_) => 4,
        }
    }

    /// Which sub-key each round uses, counted from one.
    pub open spec fn schedule(&self) -> Seq<usize> {
        key_schedule(self.key_view().len())
    }

    /// Sub-key `j`, counted from one.
    pub open spec fn sub_key(&self, j: int) -> Seq<u8> {
        sub_key_of(self.key_view(), j)
    }

    /// The sub-keys of the rounds, in order.
    pub open spec fn round_keys(&self) -> Seq<Seq<u8>> {
        round_keys_of(self.key_view())
    }

    /// The encryption of a 16-byte block.
    pub open spec fn encrypt(&self, m: Seq<u8>) -> Seq<u8> {
        encrypt_block(self.key_view(), m)
    }

    /// The decryption of a 16-byte block.
    pub open spec fn decrypt(&self, m: Seq<u8>) -> Seq<u8> {
        decrypt_block(self.key_view(), m)
    }
}

impl Magenta {
    /// A cipher with a 16-byte key.
    pub fn new_128(k: &B16) -> (r: Magenta)
        ensures
            r == Magenta::Key128(*k),
    {
        Magenta::Key128(*k)
    }

    /// A cipher with a 24-byte key.
    pub fn new_192(k: &B24) -> (r: Magenta)
        ensures
            r == Magenta::Key192(*k),
    {
        Magenta::Key192(*k)
    }

    /// A cipher with a 32-byte key.
    pub fn new_256(k: &B32) -> (r: Magenta)
        ensures
            r == Magenta::Key256(*k),
    {
        Magenta::Key256(*k)
    }

    /// Encrypts one block.
    pub fn enc(&self, m: &B16) -> (r: B16)
        ensures
            r@ == self.encrypt(m@),
    {
        let mut res: B16 = *m;
        let divided_key = self.divide_key();
        let key_parts_seq = self.key_parts_seq();
        let ghost ks = self.round_keys();
        let mut i: usize = 0;
        while i < key_parts_seq.len()
            invariant
                key_parts_seq@ == self.schedule(),
                ks == self.round_keys(),
                ks.len() == key_parts_seq@.len(),
                divided_key@.len() == self.parts_count(),
                forall|j: int| 0 <= j < divided_key@.len() ==> (#[trigger] divided_key@[j])@ == self.sub_key(j + 1),
                i <= key_parts_seq@.len(),
                res@ == feistel_rounds(m@, ks.take(i as int)),
            decreases key_parts_seq@.len() - i,
        {
            let part_i: usize = key_parts_seq[i];
            assert(1 <= part_i <= self.parts_count());
            res = self.feistel_round(&res, &divided_key[part_i - 1]);
            proof {
                assert(ks.take(i + 1).drop_last() =~= ks.take(i as int));
            }
            i = i + 1;
        }
        assert(ks.take(i as int) =~= ks);
        res
    }

    /// Decrypts one block: encryption between two exchanges of the halves.
    pub fn dec(&self, m: &B16) -> (r: B16)
        ensures
            r@ == self.decrypt(m@),
    {
        let enced = self.enc(&self.v(m));
        self.v(&enced)
    }

    /// The key bytes.
    pub fn key(self) -> (r: Vec<u8>)
        ensures
            r@ == self.key_view(),
    {
        match self {
            Magenta::Key128(k) => slice_to_vec(&k),
            Magenta::Key192(k) => slice_to_vec(&k),
            Magenta::Key256(k) => slice_to_vec(&k),
        }
    }

    /// One Feistel round of `x` under the sub-key `y`.
    fn feistel_round(&self, x: &B16, y: &B8) -> (r: B16)
        ensures
            r@ == feistel(x@, y@),
    {
        let x1 = part(0, x);
        let x2 = part(1, x);
        let r: usize = 3;
        let e_array = concat_arrays_u8(&x2, y);
        let fx = self.e(r, &e_array);
        concat_arrays_u8(&x2, &xor_array(&x1, &fx))
    }

    /// The number of 8-byte sub-keys.
    fn key_parts_count(self) -> (r: usize)
        ensures
            r == self.parts_count(),
    {
        match self {
            Magenta::Key128(..) => 2,
            Magenta::Key192(..) => 3,
            Magenta::Key256(..) => 4,
        }
    }

    /// Which sub-key each round uses, counted from one.
    fn key_parts_seq(self) -> (r: Vec<usize>)
        ensures
            r@ == self.schedule(),
    {
        let r = match self {
            Magenta::Key128(..) => vec![1usize, 1, 2, 2, 1, 1],
            Magenta::Key192(..) => vec![1usize, 2, 3, 3, 2, 1],
            Magenta::Key256(..) => vec![1usize, 2, 3, 4, 4, 3, 2, 1],
        };
        assert(r@ =~= self.schedule());
        r
    }

    /// The 8-byte sub-keys, in order.
    fn divide_key(&self) -> (r: Vec<B8>)
        ensures
            r@.len() == self.parts_count(),
            forall|j: int| 0 <= j < r@.len() ==> (#[trigger] r@[j])@ == self.sub_key(j + 1),
    {
        let mut divided_key: Vec<B8> = Vec::new();
        let k_parts_count: usize = self.key_parts_count();
        let key = self.key();
        let mut i: usize = 0;
        while i < k_parts_count
            invariant
                k_parts_count == self.parts_count(),
                key@ == self.key_view(),
                key@.len() == 8 * self.parts_count(),
                i <= k_parts_count,
                divided_key@.len() == i,
                forall|j: int| 0 <= j < i ==> (#[trigger] divided_key@[j])@ == self.sub_key(j + 1),
            decreases k_parts_count - i,
        {
            divided_key.push(part(i, key.as_slice()));
            i = i + 1;
        }
        divided_key
    }

    /// The even-indexed bytes of `x`.
    fn xe(&self, x: &B16) -> (r: B8)
        ensures
            r@ == evens(x@),
    {
        let mut v: B8 = [0u8; 8];
        let mut i: usize = 0;
        while i < 8
            invariant
                i <= 8,
                forall|j: int| 0 <= j < i ==> v@[j] == x@[2 * j],
            decreases 8 - i,
        {
            v[i] = x[i * 2];
            i = i + 1;
        }
        assert(v@ =~= evens(x@));
        v
    }

    /// The odd-indexed bytes of `x`.
    fn xo(&self, x: &B16) -> (r: B8)
        ensures
            r@ == odds(x@),
    {
        let mut v: B8 = [0u8; 8];
        let mut i: usize = 0;
        while i < 8
            invariant
                i <= 8,
                forall|j: int| 0 <= j < i ==> v@[j] == x@[2 * j + 1],
            decreases 8 - i,
        {
            v[i] = x[i * 2 + 1];
            i = i + 1;
        }
        assert(v@ =~= odds(x@));
        v
    }

    /// The substitution of one byte.
    fn f(&self, x: u8) -> (r: u8)
        ensures
            r == sub_byte(x),
    {
        S_BLOCK[x as usize]
    }

    /// The nonlinear combine of two bytes.
    fn a(&self, x: u8, y: u8) -> (r: u8)
        ensures
            r == combine(x, y),
    {
        self.f(x ^ self.f(y))
    }

    /// Both combines of two bytes, the first in the high byte.
    fn pe(&self, x: u8, y: u8) -> (r: u16)
        ensures
            r == combine(x, y) * 256 + combine(y, x),
    {
        concat_u8(self.a(x, y), self.a(y, x))
    }

    /// The permutation transform.
    fn p(&self, x: &B16) -> (r: B16)
        ensures
            r@ == perm(x@),
    {
        let mut v: B16 = [0u8; 16];
        let mut i: usize = 0;
        while i < 8
            invariant
                i <= 8,
                forall|k: int| 0 <= k < 2 * i ==> v@[k] == perm(x@)[k],
            decreases 8 - i,
        {
            let x1: u8 = x[i];
            let x2: u8 = x[i + 8];
            let pe_x: u16 = self.pe(x1, x2);
            let hi: u8 = nth_byte(pe_x as usize, 1);
            let lo: u8 = nth_byte(pe_x as usize, 0);
            proof {
                lemma2_to64();
                let c1 = combine(x1, x2) as int;
                let c2 = combine(x2, x1) as int;
                assert((c1 * 256 + c2) / 256 % 256 == c1 && (c1 * 256 + c2) / 1 % 256 == c2)
                    by (nonlinear_arith)
                    requires
                        0 <= c1 < 256,
                        0 <= c2 < 256,
                ;
            }
            v[i * 2] = hi;
            v[i * 2 + 1] = lo;
            assert((2 * i) as int / 2 == i && (2 * i) as int % 2 == 0);
            assert((2 * i + 1) as int / 2 == i && (2 * i + 1) as int % 2 == 1);
            i = i + 1;
        }
        assert(v@ =~= perm(x@));
        v
    }

    /// The mixing transform.
    fn t(&self, x: &B16) -> (r: B16)
        ensures
            r@ == mix(x@),
    {
        self.p(&self.p(&self.p(&self.p(x))))
    }

    /// The recursive mixing transform at depth `r`.
    fn c(&self, r: usize, x: &B16) -> (res: B16)
        requires
            r >= 1,
        ensures
            res@ == mix_depth(r as nat, x@),
        decreases r,
    {
        if r == 1 {
            self.t(x)
        } else {
            let c_prev = self.c(r - 1, x);
            let c_e = self.xe(&c_prev);
            let c_o = self.xo(&c_prev);
            let xor1 = xor_array(&c_e, &part(0, x));
            let xor2 = xor_array(&c_o, &part(1, x));
            let x_next = concat_arrays_u8(&xor1, &xor2);
            self.t(&x_next)
        }
    }

    /// The round function at depth `r`.
    fn e(&self, r: usize, x: &B16) -> (res: B8)
        requires
            r >= 1,
        ensures
            res@ == evens(mix_depth(r as nat, x@)),
    {
        self.xe(&self.c(r, x))
    }

    /// `x` with its halves exchanged.
    fn v(&self, x: &B16) -> (r: B16)
        ensures
            r@ == swap_halves(x@),
    {
        let mut vv: B16 = [0u8; 16];
        let mut i: usize = 0;
        while i < 8
            invariant
                i <= 8,
                forall|j: int| 0 <= j < i ==> vv@[j] == x@[j + 8],
                forall|j: int| 8 <= j < i + 8 ==> vv@[j] == x@[j - 8],
            decreases 8 - i,
        {
            vv[i] = x[i + 8];
            vv[i + 8] = x[i];
            i = i + 1;
        }
        assert(vv@ =~= swap_halves(x@));
        vv
    }
}

/// Exclusive or with the same bytes twice gives back the first argument.
proof fn lemma_xor_twice(a: Seq<u8>, b: Seq<u8>)
    requires
        a.len() == b.len(),
    ensures
        xor_seq(xor_seq(a, b), b) == a,
{
    assert forall|i: int| 0 <= i < a.len() implies xor_seq(xor_seq(a, b), b)[i] == a[i] by {
        let (x, y) = (a[i], b[i]);
        assert((x ^ y) ^ y == x) by (bit_vector);
    }
    assert(xor_seq(xor_seq(a, b), b) =~= a);
}

/// A round applied to its own output with the halves exchanged gives the
/// input with the halves exchanged.
proof fn lemma_feistel_undo(x: Seq<u8>, k: Seq<u8>)
    requires
        x.len() == 16,
        k.len() == 8,
    ensures
        feistel(x, k).len() == 16,
        feistel(swap_halves(feistel(x, k)), k) == swap_halves(x),
{
    let l = x.subrange(0, 8);
    let r = x.subrange(8, 16);
    let f = round_fn(r + k);
    let y = swap_halves(feistel(x, k));
    assert(y.subrange(8, 16) =~= r);
    assert(y.subrange(0, 8) =~= xor_seq(l, f));
    lemma_xor_twice(l, f);
    assert(feistel(y, k) =~= swap_halves(x));
}

/// Rounds keep the block length.
proof fn lemma_rounds_len(x: Seq<u8>, ks: Seq<Seq<u8>>)
    requires
        x.len() == 16,
    ensures
        feistel_rounds(x, ks).len() == 16,
    decreases ks.len(),
{
    if ks.len() > 0 {
        lemma_rounds_len(x, ks.drop_last());
    }
}

/// The rounds under `k` followed by `rest`, taken one at a time from the
/// front.
proof fn lemma_rounds_cons(x: Seq<u8>, k: Seq<u8>, rest: Seq<Seq<u8>>)
    ensures
        feistel_rounds(x, seq![k] + rest) == feistel_rounds(feistel(x, k), rest),
    decreases rest.len(),
{
    let ks = seq![k] + rest;
    if rest.len() == 0 {
        assert(ks.drop_last() =~= Seq::<Seq<u8>>::empty());
        assert(ks.last() == k);
        assert(feistel_rounds(x, ks.drop_last()) == x);
    } else {
        assert(ks.drop_last() =~= seq![k] + rest.drop_last());
        assert(ks.last() == rest.last());
        lemma_rounds_cons(x, k, rest.drop_last());
    }
}

/// The rounds in reverse order, between two exchanges of the halves, undo
/// the rounds.
proof fn lemma_rounds_undo(x: Seq<u8>, ks: Seq<Seq<u8>>)
    requires
        x.len() == 16,
        forall|i: int| 0 <= i < ks.len() ==> (#[trigger] ks[i]).len() == 8,
    ensures
        feistel_rounds(swap_halves(feistel_rounds(x, ks)), ks.reverse()) == swap_halves(x),
    decreases ks.len(),
{
    if ks.len() == 0 {
        assert(swap_halves(swap_halves(x)) =~= x);
        assert(swap_halves(x) =~= swap_halves(x));
    } else {
        let init = ks.drop_last();
        let k = ks.last();
        let z = feistel_rounds(x, init);
        lemma_rounds_len(x, init);
        assert(ks.reverse() =~= seq![k] + init.reverse());
        lemma_rounds_cons(swap_halves(feistel(z, k)), k, init.reverse());
        lemma_feistel_undo(z, k);
        lemma_rounds_undo(x, init);
    }
}

/// Encryption keeps the block length.
pub proof fn lemma_encrypt_block_len(key: Seq<u8>, m: Seq<u8>)
    requires
        m.len() == 16,
    ensures
        encrypt_block(key, m).len() == 16,
{
    lemma_rounds_len(m, round_keys_of(key));
}

/// Decryption undoes encryption, for every block and every key size.
pub proof fn lemma_decrypt_encrypt(c: Magenta, m: Seq<u8>)
    requires
        m.len() == 16,
    ensures
        c.decrypt(c.encrypt(m)) == m,
{
    lemma_block_round_trip(c.key_view(), m);
}

/// Decryption undoes encryption under any key of 16, 24 or 32 bytes.
pub proof fn lemma_block_round_trip(key: Seq<u8>, m: Seq<u8>)
    requires
        key.len() == 16 || key.len() == 24 || key.len() == 32,
        m.len() == 16,
    ensures
        decrypt_block(key, encrypt_block(key, m)) == m,
{
    let ks = round_keys_of(key);
    assert(ks.reverse() =~= ks);
    assert forall|i: int| 0 <= i < ks.len() implies (#[trigger] ks[i]).len() == 8 by {}
    lemma_rounds_len(m, ks);
    lemma_rounds_undo(m, ks);
    assert(swap_halves(swap_halves(m)) =~= m);
}

} // verus!
