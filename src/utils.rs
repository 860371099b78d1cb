//! Fixed-size byte-array helpers.

use vstd::arithmetic::power2::{lemma2_to64, lemma_pow2_adds, lemma_pow2_strictly_increases, lemma_pow2_pos, pow2};
use vstd::arithmetic::div_mod::{lemma_basic_div, lemma_div_denominator, lemma_fundamental_div_mod};
use vstd::bits::lemma_u64_shr_is_div;
use vstd::prelude::*;

verus! {

pub type B8 = [u8; 8];

pub type B16 = [u8; 16];

pub type B24 = [u8; 24];

pub type B32 = [u8; 32];

/// Byte `n` of `x`, counting from the least significant one.
pub open spec fn byte_at(x: nat, n: nat) -> u8 {
    ((x / pow2(8 * n)) % 256) as u8
}

/// The unsigned big-endian value of a byte sequence.
pub open spec fn be_value(s: Seq<u8>) -> nat
    decreases s.len(),
{
    if s.len() == 0 {
        0
    } else {
        be_value(s.drop_last()) * 256 + s.last() as nat
    }
}

/// The byte-wise exclusive or of two sequences of one length.
pub open spec fn xor_seq(a: Seq<u8>, b: Seq<u8>) -> Seq<u8> {
    Seq::new(a.len(), |i: int| a[i] ^ b[i])
}

/// The end-of-message marker that opens the padding.
pub const END_MARKER: u8 = 64;

/// Byte `n` of `x`.
pub fn nth_byte(x: usize, n: usize) -> (r: u8)
    requires
        n < 8,
    ensures
        r == byte_at(x as nat, n as nat),
{
    nth_byte_u64(x as u64, n)
}

/// Byte `n` of `x`.
pub fn nth_byte_u64(x: u64, n: usize) -> (r: u8)
    requires
        n < 8,
    ensures
        r == byte_at(x as nat, n as nat),
{
    let shift: u64 = 8 * n as u64;
    let y: u64 = x >> shift;
    proof {
        lemma_u64_shr_is_div(x, shift);
        lemma_pow2_pos(8 * n as nat);
    }
    let r: u8 = (y % 256) as u8;
    r
}

/// The big-endian value of at most eight bytes.
pub fn slice_to_u64(slice: &[u8]) -> (r: u64)
    requires
        slice@.len() <= 8,
    ensures
        r == be_value(slice@),
{
    let mut res: u64 = 0;
    let mut i: usize = 0;
    proof {
        lemma2_to64();
    }
    while i < slice.len()
        invariant
            i <= slice@.len() <= 8,
            res == be_value(slice@.subrange(0, i as int)),
            res < pow2(8 * i as nat),
        decreases slice@.len() - i,
    {
        proof {
            lemma_be_value_bound(slice@.subrange(0, i as int));
            lemma_pow2_pos(8 * i as nat);
            if i + 1 < 8 {
                lemma_pow2_strictly_increases(8 * (i + 1) as nat, 64);
            }
            lemma_pow2_adds(8 * i as nat, 8);
            assert(pow2(8) == 256) by {
                lemma2_to64();
            }
            assert(pow2(64) == 0x1_0000_0000_0000_0000) by {
                lemma2_to64();
            }
        }
        let b: u64 = slice[i] as u64;
        assert(res * 256 + b < pow2(8 * (i + 1) as nat)) by (nonlinear_arith)
            requires
                res < pow2(8 * i as nat),
                b < 256,
                pow2(8 * (i + 1) as nat) == pow2(8 * i as nat) * 256,
        ;
        res = res * 256 + b;
        i = i + 1;
        assert(slice@.subrange(0, i as int).drop_last() =~= slice@.subrange(0, i - 1));
    }
    assert(slice@.subrange(0, i as int) =~= slice@);
    res
}

/// A big-endian value is below `256` to the power of its length.
pub proof fn lemma_be_value_bound(s: Seq<u8>)
    ensures
        be_value(s) < pow2(8 * s.len()),
    decreases s.len(),
{
    lemma2_to64();
    if s.len() > 0 {
        lemma_be_value_bound(s.drop_last());
        lemma_pow2_adds(8 * (s.len() - 1) as nat, 8);
        assert(pow2(8) == 256) by {
            lemma2_to64();
        }
        let v = be_value(s.drop_last());
        let w = pow2(8 * (s.len() - 1) as nat);
        assert(v * 256 + s.last() < w * 256) by (nonlinear_arith)
            requires
                v < w,
                s.last() < 256,
        ;
        assert(8 * (s.len() - 1) + 8 == 8 * s.len());
    }
}

/// The 16-bit value whose high byte is `a` and low byte is `b`.
pub fn concat_u8(a: u8, b: u8) -> (r: u16)
    ensures
        r == a * 256 + b,
{
    a as u16 * 256 + b as u16
}

/// `a1` followed by `a2`.
pub fn concat_arrays_u8(a1: &B8, a2: &B8) -> (r: B16)
    ensures
        r@ == a1@ + a2@,
{
    let mut res: B16 = [0u8; 16];
    let mut i: usize = 0;
    while i < 8
        invariant
            0 <= i <= 8,
            forall|j: int| 0 <= j < i ==> res@[j] == a1@[j] && res@[j + 8] == a2@[j],
        decreases 8 - i,
    {
        res[i] = a1[i];
        res[i + 8] = a2[i];
        i = i + 1;
    }
    assert(res@ =~= a1@ + a2@);
    res
}

/// The byte-wise exclusive or of two 8-byte arrays.
pub fn xor_array(a1: &B8, a2: &B8) -> (r: B8)
    ensures
        r@ == xor_seq(a1@, a2@),
{
    let mut xa: B8 = [0u8; 8];
    let mut i: usize = 0;
    while i < 8
        invariant
            0 <= i <= 8,
            forall|j: int| 0 <= j < i ==> xa@[j] == a1@[j] ^ a2@[j],
        decreases 8 - i,
    {
        xa[i] = a1[i] ^ a2[i];
        i = i + 1;
    }
    assert(xa@ =~= xor_seq(a1@, a2@));
    xa
}

/// The byte-wise exclusive or of two 16-byte arrays.
pub fn xor_array_16(a1: &B16, a2: &B16) -> (r: B16)
    ensures
        r@ == xor_seq(a1@, a2@),
{
    let mut xa: B16 = [0u8; 16];
    let mut i: usize = 0;
    while i < 16
        invariant
            0 <= i <= 16,
            forall|j: int| 0 <= j < i ==> xa@[j] == a1@[j] ^ a2@[j],
        decreases 16 - i,
    {
        xa[i] = a1[i] ^ a2[i];
        i = i + 1;
    }
    assert(xa@ =~= xor_seq(a1@, a2@));
    xa
}

/// The `n`-th 8-byte stripe of `x`.
pub fn part(n: usize, x: &[u8]) -> (r: B8)
    requires
        8 * n + 8 <= x@.len(),
    ensures
        r@ == x@.subrange(8 * n as int, 8 * n + 8),
{
    let mut h: B8 = [0u8; 8];
    let mut i: usize = 0;
    while i < 8
        invariant
            0 <= i <= 8,
            8 * n + 8 <= x.len(),
            forall|j: int| 0 <= j < i ==> h@[j] == x@[8 * n + j],
        decreases 8 - i,
    {
        h[i] = x[8 * n + i];
        i = i + 1;
    }
    assert(h@ =~= x@.subrange(8 * n as int, 8 * n + 8));
    h
}

/// Draws one byte at random.
/// Relies on rand::random, which draws from the thread-local generator.
#[verifier::external_body]
pub(crate) fn random_byte() -> u8 {
    rand::random::<u8>()
}

/// Fills all but the last byte of `buf` at random and stores in the last
/// byte the count of the bytes before it.
pub fn random_fill_tail_end(buf: &mut [u8])
    requires
        old(buf)@.len() >= 1,
    ensures
        final(buf)@.len() == old(buf)@.len(),
        final(buf)@.last() == (old(buf)@.len() - 1) as u8,
{
    let n: usize = buf.len();
    let mut i: usize = 0;
    while i < n - 1
        invariant
            n == buf@.len() >= 1,
            i <= n - 1,
        decreases n - 1 - i,
    {
        buf[i] = random_byte();
        i = i + 1;
    }
    buf[n - 1] = (n - 1) as u8;
}

/// Writes the end-of-message marker into the first byte of `buf` and zeroes
/// the rest.
pub fn fill_with_end_bits(buf: &mut [u8])
    requires
        old(buf)@.len() >= 1,
    ensures
        final(buf)@ == end_padding(old(buf)@.len()),
{
    let n: usize = buf.len();
    buf[0] = END_MARKER;
    let mut i: usize = 1;
    while i < n
        invariant
            n == buf@.len() >= 1,
            1 <= i <= n,
            buf@[0] == END_MARKER,
            forall|j: int| 1 <= j < i ==> buf@[j] == 0,
        decreases n - i,
    {
        buf[i] = 0;
        i = i + 1;
    }
    assert(buf@ =~= end_padding(n as nat));
}

/// The marker followed by zeroes, `n` bytes in all.
pub open spec fn end_padding(n: nat) -> Seq<u8> {
    Seq::new(n, |i: int| if i == 0 { END_MARKER } else { 0u8 })
}

/// The eight big-endian bytes of `x`.
pub open spec fn be_bytes_u64(x: nat) -> Seq<u8> {
    Seq::new(8, |i: int| byte_at(x, (7 - i) as nat))
}

/// Writes `fs` big-endian into the last eight bytes of `buf`.
pub fn fill_with_file_size(fs: u64, buf: &mut [u8])
    requires
        old(buf)@.len() >= 8,
    ensures
        final(buf)@.len() == old(buf)@.len(),
        final(buf)@.subrange(0, old(buf)@.len() - 8) == old(buf)@.subrange(0, old(buf)@.len() - 8),
        final(buf)@.subrange(old(buf)@.len() - 8, old(buf)@.len() as int) == be_bytes_u64(fs as nat),
{
    let n: usize = buf.len();
    let mut i: usize = 0;
    while i < 8
        invariant
            n == buf@.len() >= 8,
            i <= 8,
            forall|j: int| 0 <= j < n - 8 ==> buf@[j] == old(buf)@[j],
            forall|j: int| n - i <= j < n ==> buf@[j] == byte_at(fs as nat, (n - 1 - j) as nat),
        decreases 8 - i,
    {
        buf[n - i - 1] = nth_byte_u64(fs, i);
        i = i + 1;
    }
    assert(buf@.subrange(0, n - 8) =~= old(buf)@.subrange(0, n - 8));
    assert(buf@.subrange(n - 8, n as int) =~= be_bytes_u64(fs as nat));
}

/// Whether the eight bytes of the length still fit in a block of `buf_len`
/// bytes of which `byte_count` hold data.
pub fn is_file_size_can_fit(byte_count: usize, buf_len: usize) -> (r: bool)
    requires
        byte_count <= buf_len,
    ensures
        r == (buf_len - byte_count >= 8),
{
    buf_len - byte_count >= 8
}

/// The length that the last eight bytes of `block` hold, big-endian.
pub fn get_original_size(block: &B16) -> (r: u64)
    ensures
        r == be_value(block@.subrange(8, 16)),
{
    slice_to_u64(&block[8..16])
}

/// The length of the whole blocks at the front of `n` bytes.
pub open spec fn full_len(n: nat) -> nat {
    (n - n % 16) as nat
}

/// How many blocks the padding of `n` bytes takes: two where fewer than
/// eight bytes of the last block are free, else one.
pub open spec fn final_block_count(n: nat) -> nat {
    if 16 - n % 16 < 8 {
        2
    } else {
        1
    }
}

/// The stream in whole blocks: the short last block padded with the marker
/// and zeroes, and the length, big-endian, in the last eight bytes of the
/// same block or, where it does not fit, of one more zero block.
pub open spec fn padded(data: Seq<u8>) -> Seq<u8> {
    let n = data.len();
    let full = full_len(n) as int;
    let tail = data.subrange(full, n as int) + end_padding((16 - n % 16) as nat);
    if 16 - n % 16 < 8 {
        data.subrange(0, full) + tail + Seq::new(8, |i: int| 0u8) + be_bytes_u64(n)
    } else {
        data.subrange(0, full) + tail.subrange(0, 8) + be_bytes_u64(n)
    }
}

/// Block `i` of a stream.
pub open spec fn block(s: Seq<u8>, i: int) -> Seq<u8> {
    s.subrange(16 * i, 16 * i + 16)
}

/// The blocks of the padding of `data`, after its whole blocks.
pub fn pad_final(data: &[u8]) -> (r: Vec<B16>)
    ensures
        r@.len() == final_block_count(data@.len()),
        padded(data@).len() == full_len(data@.len()) + 16 * final_block_count(data@.len()),
        forall|j: int|
            0 <= j < r@.len() ==> (#[trigger] r@[j])@ == block(
                padded(data@),
                full_len(data@.len()) / 16 + j,
            ),
{
    let n: usize = data.len();
    let rem: usize = n % 16;
    let full: usize = n - rem;
    let ghost pd = padded(data@);
    let ghost tail = data@.subrange(full as int, n as int) + end_padding((16 - rem) as nat);
    let mut buf: B16 = [0u8; 16];
    let mut i: usize = 0;
    while i < rem
        invariant
            n == data@.len(),
            rem == n % 16,
            full == n - rem,
            i <= rem,
            forall|j: int| 0 <= j < i ==> buf@[j] == data@[full + j],
        decreases rem - i,
    {
        buf[i] = data[full + i];
        i = i + 1;
    }
    let pad_len: usize = 16 - rem;
    let mut pad: Vec<u8> = vec![0u8; pad_len];
    fill_with_end_bits(pad.as_mut_slice());
    let mut k: usize = 0;
    while k < 16 - rem
        invariant
            n == data@.len(),
            rem == n % 16,
            full == n - rem,
            k <= 16 - rem,
            pad@ == end_padding((16 - rem) as nat),
            forall|j: int| 0 <= j < rem ==> buf@[j] == data@[full + j],
            forall|j: int| rem <= j < rem + k ==> buf@[j] == pad@[j - rem],
        decreases 16 - rem - k,
    {
        buf[rem + k] = pad[k];
        k = k + 1;
    }
    assert(buf@ =~= tail);
    let mut r: Vec<B16> = Vec::new();
    if !is_file_size_can_fit(rem, 16) {
        r.push(buf);
        buf = [0u8; 16];
    }
    let ghost before = buf@;
    fill_with_file_size(n as u64, &mut buf);
    r.push(buf);
    assert(data@.subrange(0, full as int).len() == full);
    assert(full % 16 == 0);
    assert(full as int / 16 * 16 == full);
    if 16 - rem < 8 {
        assert(block(pd, full as int / 16) =~= tail);
        assert(before =~= Seq::new(16, |i: int| 0u8));
        assert(buf@.subrange(0, 8) =~= Seq::new(8, |i: int| 0u8));
        assert(buf@ =~= buf@.subrange(0, 8) + buf@.subrange(8, 16));
        assert(block(pd, full as int / 16 + 1) =~= buf@);
    } else {
        assert(buf@ =~= tail.subrange(0, 8) + be_bytes_u64(n as nat));
        assert(block(pd, full as int / 16) =~= buf@);
    }
    r
}

/// Block `n` of `x`.
pub fn read_block(x: &[u8], n: usize) -> (r: B16)
    requires
        16 * n + 16 <= x@.len(),
    ensures
        r@ == block(x@, n as int),
{
    let mut h: B16 = [0u8; 16];
    let mut i: usize = 0;
    while i < 16
        invariant
            0 <= i <= 16,
            16 * n + 16 <= x.len(),
            forall|j: int| 0 <= j < i ==> h@[j] == x@[16 * n + j],
        decreases 16 - i,
    {
        h[i] = x[16 * n + i];
        i = i + 1;
    }
    assert(h@ =~= block(x@, n as int));
    h
}

/// The whole blocks at the front of a stream are its padded form's first
/// blocks.
pub proof fn lemma_padded_prefix(data: Seq<u8>, i: int)
    requires
        0 <= i,
        16 * i + 16 <= data.len(),
    ensures
        block(padded(data), i) == block(data, i),
{
    let n = data.len();
    let full = full_len(n) as int;
    assert(16 * i + 16 <= full);
    let pd = padded(data);
    assert(pd.subrange(0, full) =~= data.subrange(0, full));
    assert(block(pd, i) =~= block(data, i));
}

/// The big-endian value of the first `j` of the eight bytes of `x`.
proof fn lemma_be_bytes_prefix(x: nat, j: int)
    requires
        x < 0x1_0000_0000_0000_0000,
        0 <= j <= 8,
    ensures
        be_value(be_bytes_u64(x).subrange(0, j)) == x / pow2(8 * (8 - j) as nat),
    decreases j,
{
    let bs = be_bytes_u64(x);
    lemma2_to64();
    if j == 0 {
        lemma_basic_div(x as int, pow2(64) as int);
        assert(bs.subrange(0, 0) =~= Seq::<u8>::empty());
    } else {
        lemma_be_bytes_prefix(x, j - 1);
        let a = pow2(8 * (8 - j) as nat);
        lemma_pow2_pos(8 * (8 - j) as nat);
        lemma_pow2_adds(8 * (8 - j) as nat, 8);
        assert(8 * (8 - j) + 8 == 8 * (9 - j));
        assert(bs.subrange(0, j).drop_last() =~= bs.subrange(0, j - 1));
        let q = x / a;
        lemma_div_denominator(x as int, a as int, 256);
        lemma_fundamental_div_mod(q as int, 256);
    }
}

/// The big-endian value of the eight bytes of `x` is `x`.
pub proof fn lemma_be_bytes_value(x: nat)
    requires
        x < 0x1_0000_0000_0000_0000,
    ensures
        be_value(be_bytes_u64(x)) == x,
{
    lemma_be_bytes_prefix(x, 8);
    lemma2_to64();
    assert(8 * (8 - 8int) as nat == 0);
    assert(x / pow2(0) == x);
    assert(be_bytes_u64(x).subrange(0, 8) =~= be_bytes_u64(x));
}

/// Appends the bytes of `b` to `out`.
pub fn push_all(out: &mut Vec<u8>, b: &[u8])
    ensures
        final(out)@ == old(out)@ + b@,
{
    let ghost start = out@;
    let mut i: usize = 0;
    while i < b.len()
        invariant
            i <= b@.len(),
            out@ == start + b@.subrange(0, i as int),
        decreases b@.len() - i,
    {
        out.push(b[i]);
        i = i + 1;
        assert(out@ =~= start + b@.subrange(0, i as int));
    }
    assert(b@.subrange(0, b@.len() as int) =~= b@);
}

} // verus!
