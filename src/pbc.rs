//! The chained file codec: plaintext-feedback chaining of the cipher over the
//! padded stream.

use crate::cipher::{
    decrypt_block, encrypt_block, lemma_block_round_trip, lemma_encrypt_block_len, Magenta,
};
use crate::utils::{
    be_bytes_u64, be_value, block, full_len, get_original_size, lemma_be_bytes_value,
    lemma_padded_prefix, pad_final, padded, push_all, random_byte, read_block, xor_array_16,
    xor_seq, B16,
};
use vstd::prelude::*;

verus! {

/// Why a stream cannot be decrypted.
#[derive(Debug, Clone, Copy, PartialEq, Eq, Structural)]
pub enum PbcError {
    /// The stream is empty or not a whole number of blocks.
    NotBlockAligned,
    /// The length that the stream records exceeds what it holds.
    SizeOutOfRange,
}

/// A codec: the cipher key and the initialization vector, the first
/// "previous plaintext".
pub struct PBC {
    pub k: B16,
    pub p0: B16,
}

/// The plaintext block before block `i` of `pt`: the initialization vector
/// before the first.
pub open spec fn prev_block(pt: Seq<u8>, p0: Seq<u8>, i: int) -> Seq<u8> {
    if i == 0 {
        p0
    } else {
        block(pt, i - 1)
    }
}

/// The first `n` cipher blocks of the whole-block plaintext `pt`: each block
/// encrypted, XOR the plaintext block before it.
pub open spec fn chained_encrypt(key: Seq<u8>, p0: Seq<u8>, pt: Seq<u8>, n: nat) -> Seq<u8>
    decreases n,
{
    if n == 0 {
        Seq::empty()
    } else {
        chained_encrypt(key, p0, pt, (n - 1) as nat) + xor_seq(
            encrypt_block(key, block(pt, n - 1)),
            prev_block(pt, p0, n - 1),
        )
    }
}

/// The first `n` plaintext blocks of the cipher stream `ct`: each cipher
/// block XOR the plaintext block before it, decrypted.
pub open spec fn chained_decrypt(key: Seq<u8>, p0: Seq<u8>, ct: Seq<u8>, n: nat) -> Seq<u8>
    decreases n,
{
    if n == 0 {
        Seq::empty()
    } else {
        let prev = chained_decrypt(key, p0, ct, (n - 1) as nat);
        let pp = if n == 1 {
            p0
        } else {
            prev.subrange(prev.len() - 16, prev.len() as int)
        };
        prev + decrypt_block(key, xor_seq(pp, block(ct, n - 1)))
    }
}

/// The encryption of the stream `data`.
pub open spec fn encrypted(key: Seq<u8>, p0: Seq<u8>, data: Seq<u8>) -> Seq<u8> {
    chained_encrypt(key, p0, padded(data), padded(data).len() / 16)
}

/// The decryption of the stream `ct`: all blocks decrypted, cut to the
/// length that the last eight bytes record.
pub open spec fn decrypted(key: Seq<u8>, p0: Seq<u8>, ct: Seq<u8>) -> Result<Seq<u8>, PbcError> {
    if ct.len() == 0 || ct.len() % 16 != 0 {
        Err(PbcError::NotBlockAligned)
    } else {
        let d = chained_decrypt(key, p0, ct, ct.len() / 16);
        let size = be_value(d.subrange(d.len() - 8, d.len() as int));
        if size > ct.len() - 8 {
            Err(PbcError::SizeOutOfRange)
        } else {
            Ok(d.subrange(0, size as int))
        }
    }
}

impl PBC {
    /// A codec with the key `k` and the initialization vector `p0`.
    pub fn new(k: &B16, p0: &B16) -> (r: PBC)
        ensures
            r.k == *k,
            r.p0 == *p0,
    {
        PBC { k: *k, p0: *p0 }
    }

    /// The key that the first sixteen bytes of a key file hold; bytes that
    /// the file lacks are zero.
    pub fn key_from_file(content: &[u8]) -> (r: B16)
        ensures
            forall|i: int|
                0 <= i < 16 ==> r@[i] == if i < content@.len() {
                    content@[i]
                } else {
                    0u8
                },
    {
        let mut key: B16 = [0u8; 16];
        let mut i: usize = 0;
        while i < 16 && i < content.len()
            invariant
                i <= 16,
                i <= content@.len(),
                forall|j: int|
                    0 <= j < 16 ==> key@[j] == if j < i {
                        content@[j]
                    } else {
                        0u8
                    },
            decreases 16 - i,
        {
            key[i] = content[i];
            i = i + 1;
        }
        key
    }

    /// A key drawn at random.
    pub fn rnd_key() -> (r: B16) {
        let mut key: B16 = [0u8; 16];
        let mut i: usize = 0;
        while i < 16
            invariant
                i <= 16,
            decreases 16 - i,
        {
            key[i] = random_byte();
            i = i + 1;
        }
        key
    }

    /// Encrypts the stream `data`; the result is a whole number of blocks.
    pub fn enc_file(&self, data: &[u8]) -> (r: Vec<u8>)
        ensures
            r@ == encrypted(self.k@, self.p0@, data@),
            r@.len() % 16 == 0,
    {
        let ghost pd = padded(data@);
        let ghost key = self.k@;
        let ghost p0 = self.p0@;
        let full_blocks: usize = data.len() / 16;
        let mut out: Vec<u8> = Vec::new();
        let mut buf_prev: B16 = self.p0;
        let mut i: usize = 0;
        while i < full_blocks
            invariant
                pd == padded(data@),
                key == self.k@,
                p0 == self.p0@,
                full_blocks == data@.len() / 16,
                i <= full_blocks,
                out@ == chained_encrypt(key, p0, pd, i as nat),
                buf_prev@ == prev_block(pd, p0, i as int),
            decreases full_blocks - i,
        {
            let buf_cur = read_block(data, i);
            proof {
                lemma_padded_prefix(data@, i as int);
            }
            let ci = self.enc_func(&buf_cur, &buf_prev);
            push_all(&mut out, &ci);
            buf_prev = buf_cur;
            i = i + 1;
        }
        let tail = pad_final(data);
        assert(full_len(data@.len()) / 16 == full_blocks);
        let mut j: usize = 0;
        while j < tail.len()
            invariant
                pd == padded(data@),
                key == self.k@,
                p0 == self.p0@,
                full_blocks == data@.len() / 16,
                tail@.len() <= 2,
                j <= tail@.len(),
                forall|k: int| 0 <= k < tail@.len() ==> (#[trigger] tail@[k])@ == block(pd, full_blocks + k),
                out@ == chained_encrypt(key, p0, pd, (full_blocks + j) as nat),
                buf_prev@ == prev_block(pd, p0, full_blocks + j),
            decreases tail@.len() - j,
        {
            let buf_cur = tail[j];
            let ci = self.enc_func(&buf_cur, &buf_prev);
            push_all(&mut out, &ci);
            buf_prev = buf_cur;
            j = j + 1;
        }
        assert(pd.len() / 16 == full_blocks + tail@.len());
        proof {
            lemma_chained_encrypt_len(key, p0, pd, pd.len() / 16);
        }
        out
    }

    /// Decrypts the stream `data`.
    pub fn dec_file(&self, data: &[u8]) -> (r: Result<Vec<u8>, PbcError>)
        ensures
            match r {
                Ok(v) => decrypted(self.k@, self.p0@, data@) == Ok::<Seq<u8>, PbcError>(v@),
                Err(e) => decrypted(self.k@, self.p0@, data@) == Err::<Seq<u8>, PbcError>(e),
            },
    {
        let n: usize = data.len();
        if n == 0 || n % 16 != 0 {
            return Err(PbcError::NotBlockAligned);
        }
        let ghost key = self.k@;
        let ghost p0 = self.p0@;
        let block_count: usize = n / 16;
        let mut out: Vec<u8> = Vec::new();
        let mut p_prev: B16 = self.p0;
        let mut i: usize = 0;
        while i < block_count
            invariant
                key == self.k@,
                p0 == self.p0@,
                n == data@.len(),
                block_count == n / 16,
                i <= block_count,
                out@ == chained_decrypt(key, p0, data@, i as nat),
                out@.len() == 16 * i,
                i == 0 ==> p_prev@ == p0,
                i > 0 ==> p_prev@ == out@.subrange(out@.len() - 16, out@.len() as int),
            decreases block_count - i,
        {
            let c_cur = read_block(data, i);
            let p_cur = self.dec_func(&p_prev, &c_cur);
            push_all(&mut out, &p_cur);
            assert(out@.subrange(out@.len() - 16, out@.len() as int) =~= p_cur@);
            p_prev = p_cur;
            i = i + 1;
        }
        let original_size: u64 = get_original_size(&p_prev);
        assert(p_prev@.subrange(8, 16) =~= out@.subrange(out@.len() - 8, out@.len() as int));
        if original_size > (n - 8) as u64 {
            return Err(PbcError::SizeOutOfRange);
        }
        out.truncate(original_size as usize);
        Ok(out)
    }

    /// One block of the chaining: `buf_cur` encrypted, XOR `buf_prev`.
    fn enc_func(&self, buf_cur: &B16, buf_prev: &B16) -> (r: B16)
        ensures
            r@ == xor_seq(encrypt_block(self.k@, buf_cur@), buf_prev@),
    {
        let ek = Magenta::new_128(&self.k).enc(buf_cur);
        xor_array_16(&ek, buf_prev)
    }

    /// One block of the unchaining: `buf_prev` XOR `ci`, decrypted.
    fn dec_func(&self, buf_prev: &B16, ci: &B16) -> (r: B16)
        ensures
            r@ == decrypt_block(self.k@, xor_seq(buf_prev@, ci@)),
    {
        let m = xor_array_16(buf_prev, ci);
        Magenta::new_128(&self.k).dec(&m)
    }
}

/// The chained encryption of `n` blocks is `16 n` bytes long.
proof fn lemma_chained_encrypt_len(key: Seq<u8>, p0: Seq<u8>, pt: Seq<u8>, n: nat)
    requires
        16 * n <= pt.len(),
    ensures
        chained_encrypt(key, p0, pt, n).len() == 16 * n,
    decreases n,
{
    if n > 0 {
        lemma_encrypt_block_len(key, block(pt, n - 1));
        lemma_chained_encrypt_len(key, p0, pt, (n - 1) as nat);
    }
}

/// XOR with `b` undoes XOR with `b`.
proof fn lemma_xor_cancel(a: Seq<u8>, b: Seq<u8>)
    requires
        a.len() == b.len(),
    ensures
        xor_seq(b, xor_seq(a, b)) == a,
{
    assert forall|i: int| 0 <= i < a.len() implies xor_seq(b, xor_seq(a, b))[i] == a[i] by {
        let (x, y) = (a[i], b[i]);
        assert(y ^ (x ^ y) == x) by (bit_vector);
    }
    assert(xor_seq(b, xor_seq(a, b)) =~= a);
}

/// Block `i` of the chained encryption of `n` blocks.
proof fn lemma_chained_encrypt_block(key: Seq<u8>, p0: Seq<u8>, pt: Seq<u8>, n: nat, i: int)
    requires
        16 * n <= pt.len(),
        0 <= i < n,
    ensures
        block(chained_encrypt(key, p0, pt, n), i) == xor_seq(
            encrypt_block(key, block(pt, i)),
            prev_block(pt, p0, i),
        ),
    decreases n,
{
    let prev = chained_encrypt(key, p0, pt, (n - 1) as nat);
    lemma_chained_encrypt_len(key, p0, pt, (n - 1) as nat);
    lemma_chained_encrypt_len(key, p0, pt, n);
    let ce = chained_encrypt(key, p0, pt, n);
    if i == n - 1 {
        assert(block(ce, i) =~= ce.subrange(16 * (n - 1), 16 * n as int));
    } else {
        lemma_chained_encrypt_block(key, p0, pt, (n - 1) as nat, i);
        assert(block(ce, i) =~= block(prev, i));
    }
}

/// Chained decryption undoes chained encryption, block by block.
proof fn lemma_chained_round_trip(key: Seq<u8>, p0: Seq<u8>, pt: Seq<u8>, m: nat, n: nat)
    requires
        key.len() == 16,
        p0.len() == 16,
        16 * m <= pt.len(),
        n <= m,
    ensures
        chained_decrypt(key, p0, chained_encrypt(key, p0, pt, m), n) == pt.subrange(0, 16 * n as int),
    decreases n,
{
    let ct = chained_encrypt(key, p0, pt, m);
    if n == 0 {
        assert(pt.subrange(0, 0) =~= Seq::<u8>::empty());
    } else {
        lemma_chained_round_trip(key, p0, pt, m, (n - 1) as nat);
        let prev = chained_decrypt(key, p0, ct, (n - 1) as nat);
        let pp = if n == 1 {
            p0
        } else {
            prev.subrange(prev.len() - 16, prev.len() as int)
        };
        assert(pp == prev_block(pt, p0, n - 1)) by {
            if n > 1 {
                assert(prev.subrange(prev.len() - 16, prev.len() as int) =~= block(pt, n - 2));
            }
        }
        let blk = block(pt, n - 1);
        lemma_chained_encrypt_block(key, p0, pt, m, n - 1);
        lemma_encrypt_block_len(key, blk);
        lemma_xor_cancel(encrypt_block(key, blk), pp);
        lemma_block_round_trip(key, blk);
        assert(pt.subrange(0, 16 * n as int) =~= pt.subrange(0, 16 * (n - 1)) + blk);
    }
}

/// Decryption undoes encryption for every stream, every key and every
/// initialization vector.
pub proof fn lemma_codec_round_trip(key: Seq<u8>, p0: Seq<u8>, data: Seq<u8>)
    requires
        key.len() == 16,
        p0.len() == 16,
        data.len() <= u64::MAX,
    ensures
        decrypted(key, p0, encrypted(key, p0, data)) == Ok::<Seq<u8>, PbcError>(data),
{
    let n = data.len();
    let pd = padded(data);
    let m = pd.len() / 16;
    assert(pd.len() % 16 == 0);
    let ct = encrypted(key, p0, data);
    lemma_chained_encrypt_len(key, p0, pd, m);
    lemma_chained_round_trip(key, p0, pd, m, m);
    assert(pd.subrange(0, 16 * m as int) =~= pd);
    let d = chained_decrypt(key, p0, ct, ct.len() / 16);
    assert(d == pd);
    assert(d.subrange(d.len() - 8, d.len() as int) =~= be_bytes_u64(n));
    lemma_be_bytes_value(n);
    assert(d.subrange(0, n as int) =~= data);
}

} // verus!
