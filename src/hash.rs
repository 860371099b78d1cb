//! The compression hash: the cipher, keyed by each block of the padded
//! stream, mixes the block into a 16-byte running state.

use crate::cipher::{encrypt_block, Magenta};
use crate::utils::{
    block, full_len, lemma_padded_prefix, pad_final, padded, read_block, xor_array_16, xor_seq,
    B16,
};
use vstd::prelude::*;

verus! {

/// The compression step: the block XOR the state, encrypted under the
/// block, XOR the block XOR the state.
pub open spec fn compress(h: Seq<u8>, blk: Seq<u8>) -> Seq<u8> {
    let b = xor_seq(blk, h);
    xor_seq(encrypt_block(blk, b), b)
}

/// The initial state: sixteen zero bytes.
pub open spec fn initial_state() -> Seq<u8> {
    Seq::new(16, |i: int| 0u8)
}

/// The running state after the first `n` blocks of `s`.
pub open spec fn chain(s: Seq<u8>, n: nat) -> Seq<u8>
    decreases n,
{
    if n == 0 {
        initial_state()
    } else {
        compress(chain(s, (n - 1) as nat), block(s, n - 1))
    }
}

/// The digest of a stream: the state after all blocks of its padded form.
pub open spec fn digest(data: Seq<u8>) -> Seq<u8> {
    chain(padded(data), padded(data).len() / 16)
}

/// The digest of the stream `data`.
pub fn h_file(data: &[u8]) -> (r: B16)
    ensures
        r@ == digest(data@),
{
    let ghost pd = padded(data@);
    let full_blocks: usize = data.len() / 16;
    let mut h: B16 = [0u8; 16];
    assert(h@ =~= initial_state());
    let mut i: usize = 0;
    while i < full_blocks
        invariant
            pd == padded(data@),
            full_blocks == data@.len() / 16,
            i <= full_blocks,
            h@ == chain(pd, i as nat),
        decreases full_blocks - i,
    {
        let buf = read_block(data, i);
        proof {
            lemma_padded_prefix(data@, i as int);
        }
        h = h_func(&buf, &h);
        i = i + 1;
    }
    let tail = pad_final(data);
    assert(full_len(data@.len()) / 16 == full_blocks);
    let mut j: usize = 0;
    while j < tail.len()
        invariant
            pd == padded(data@),
            full_blocks == data@.len() / 16,
            tail@.len() <= 2,
            j <= tail@.len(),
            forall|k: int| 0 <= k < tail@.len() ==> (#[trigger] tail@[k])@ == block(pd, full_blocks + k),
            h@ == chain(pd, (full_blocks + j) as nat),
        decreases tail@.len() - j,
    {
        h = h_func(&tail[j], &h);
        j = j + 1;
    }
    assert(pd.len() / 16 == full_blocks + tail@.len());
    h
}

/// One compression step.
fn h_func(buf: &B16, h: &B16) -> (r: B16)
    ensures
        r@ == compress(h@, buf@),
{
    let b = xor_array_16(buf, h);
    let e = Magenta::new_128(buf).enc(&b);
    xor_array_16(&e, &b)
}

/// The digest is a function of the stream alone: equal streams hash alike.
pub proof fn lemma_digest_deterministic(a: Seq<u8>, b: Seq<u8>)
    requires
        a == b,
    ensures
        digest(a) == digest(b),
{
}

} // verus!
