//! The MD5 engine: message accumulation, little-endian padding and the
//! 64-step compression function.
use vstd::prelude::*;

use crate::word::{
    add32, append_padding, appended, bit_length, bit_length_of, decode_le64, hex_string, hex_words,
    le64, le64_bytes, lemma_appended, lemma_hex_words_len, lemma_length_field, lemma_padded,
    load_le32, padded, read_le32, rotate_left, rotl, swap32, swap_bytes, BLOCK_BYTES,
};

verus! {

/// The additive constants of the 64 steps, `floor(2^32 * |sin(j + 1)|)`.
pub const SINE_TABLE: [u32; 64] = [
    0xd76aa478, 0xe8c7b756, 0x242070db, 0xc1bdceee, 0xf57c0faf, 0x4787c62a, 0xa8304613, 0xfd469501,
    0x698098d8, 0x8b44f7af, 0xffff5bb1, 0x895cd7be, 0x6b901122, 0xfd987193, 0xa679438e, 0x49b40821,
    0xf61e2562, 0xc040b340, 0x265e5a51, 0xe9b6c7aa, 0xd62f105d, 0x02441453, 0xd8a1e681, 0xe7d3fbc8,
    0x21e1cde6, 0xc33707d6, 0xf4d50d87, 0x455a14ed, 0xa9e3e905, 0xfcefa3f8, 0x676f02d9, 0x8d2a4c8a,
    0xfffa3942, 0x8771f681, 0x6d9d6122, 0xfde5380c, 0xa4beea44, 0x4bdecfa9, 0xf6bb4b60, 0xbebfbc70,
    0x289b7ec6, 0xeaa127fa, 0xd4ef3085, 0x04881d05, 0xd9d4d039, 0xe6db99e5, 0x1fa27cf8, 0xc4ac5665,
    0xf4292244, 0x432aff97, 0xab9423a7, 0xfc93a039, 0x655b59c3, 0x8f0ccc92, 0xffeff47d, 0x85845dd1,
    0x6fa87e4f, 0xfe2ce6e0, 0xa3014314, 0x4e0811a1, 0xf7537e82, 0xbd3af235, 0x2ad7d2bb, 0xeb86d391,
];

/// Rotation amounts: four per round, used cyclically within the round.
pub const SHIFT_TABLE: [u32; 16] = [7, 12, 17, 22, 5, 9, 14, 20, 4, 11, 16, 23, 6, 10, 15, 21];

/// The initial accumulator words A, B, C, D.
pub open spec fn md5_initial() -> Seq<u32> {
    seq![0x67452301u32, 0xefcdab89u32, 0x98badcfeu32, 0x10325476u32]
}

/// F, the function of the first round.
pub open spec fn md5_f(b: u32, c: u32, d: u32) -> u32 {
    (b & c) | (!b & d)
}

/// G, the function of the second round.
pub open spec fn md5_g(b: u32, c: u32, d: u32) -> u32 {
    (b & d) | (c & !d)
}

/// H, the function of the third round.
pub open spec fn md5_h(b: u32, c: u32, d: u32) -> u32 {
    b ^ c ^ d
}

/// I, the function of the fourth round.
pub open spec fn md5_i(b: u32, c: u32, d: u32) -> u32 {
    c ^ (b | !d)
}

/// One step: `b + rotl(a + mix + x + t, s)`, all modulo 2^32.
pub open spec fn md5_op(mix: u32, a: u32, b: u32, x: u32, s: u32, t: u32) -> u32 {
    add32(rotl(add32(add32(add32(mix, a), x), t), s), b)
}

/// The nonlinear function of step `j`: F, G, H, I for the four rounds.
pub open spec fn md5_mix(j: int, b: u32, c: u32, d: u32) -> u32 {
    if j < 16 {
        md5_f(b, c, d)
    } else if j < 32 {
        md5_g(b, c, d)
    } else if j < 48 {
        md5_h(b, c, d)
    } else {
        md5_i(b, c, d)
    }
}

/// The index of the block word that step `j` reads.
pub open spec fn md5_word_index(j: int) -> int {
    if j < 16 {
        j
    } else if j < 32 {
        (5 * j + 1) % 16
    } else if j < 48 {
        (3 * j + 5) % 16
    } else {
        (7 * j) % 16
    }
}

/// The rotation amount of step `j`.
pub open spec fn md5_shift(j: int) -> u32 {
    SHIFT_TABLE@[4 * (j / 16) + j % 4]
}

/// The accumulator `(A, B, C, D)` after the first `n` steps over block words
/// `x`; after each step the roles rotate so that the new word becomes B.
pub open spec fn md5_steps(st: (u32, u32, u32, u32), x: Seq<u32>, n: nat) -> (u32, u32, u32, u32)
    decreases n,
{
    if n == 0 {
        st
    } else {
        let (a, b, c, d) = md5_steps(st, x, (n - 1) as nat);
        let j = n - 1;
        (
            d,
            md5_op(md5_mix(j, b, c, d), a, b, x[md5_word_index(j)], md5_shift(j), SINE_TABLE@[j]),
            b,
            c,
        )
    }
}

/// The state after compressing one block, given as sixteen words.
pub open spec fn md5_compress(h: Seq<u32>, x: Seq<u32>) -> Seq<u32> {
    let (a, b, c, d) = md5_steps((h[0], h[1], h[2], h[3]), x, 64);
    seq![add32(a, h[0]), add32(b, h[1]), add32(c, h[2]), add32(d, h[3])]
}

/// The sixteen little-endian words of the block at byte offset `off`.
pub open spec fn md5_block_words(p: Seq<u8>, off: int) -> Seq<u32> {
    Seq::new(16, |i: int| load_le32(p, off + 4 * i))
}

/// The state after compressing the first `n` blocks of `p`, starting from `h`.
pub open spec fn md5_blocks(h: Seq<u32>, p: Seq<u8>, n: nat) -> Seq<u32>
    decreases n,
{
    if n == 0 {
        h
    } else {
        md5_compress(md5_blocks(h, p, (n - 1) as nat), md5_block_words(p, 64 * (n - 1)))
    }
}

/// The padded message: the bit length goes last, least significant byte first.
pub open spec fn md5_pad(m: Seq<u8>) -> Seq<u8> {
    padded(m, le64_bytes(bit_length(m.len())))
}

/// The digest words of message `m`.
pub open spec fn md5_digest(m: Seq<u8>) -> Seq<u32> {
    md5_blocks(md5_initial(), md5_pad(m), md5_pad(m).len() / 64)
}

/// The conventional rendering of digest words: each word byte-swapped, then
/// written as eight hexadecimal digits.
pub open spec fn md5_hex(h: Seq<u32>) -> Seq<char> {
    hex_words(h.map_values(|w: u32| swap32(w)))
}

/// Step of the first round.
pub fn f(a: u32, b: u32, c: u32, d: u32, k: u32, s: u32, t: u32) -> (r: u32)
    ensures
        r == md5_op(md5_f(b, c, d), a, b, k, s, t),
{
    let sum = ((b & c) | (!b & d)).wrapping_add(a).wrapping_add(k).wrapping_add(t);
    rotate_left(sum, s).wrapping_add(b)
}

/// Step of the second round.
pub fn g(a: u32, b: u32, c: u32, d: u32, k: u32, s: u32, t: u32) -> (r: u32)
    ensures
        r == md5_op(md5_g(b, c, d), a, b, k, s, t),
{
    let sum = ((b & d) | (c & !d)).wrapping_add(a).wrapping_add(k).wrapping_add(t);
    rotate_left(sum, s).wrapping_add(b)
}

/// Step of the third round.
pub fn h(a: u32, b: u32, c: u32, d: u32, k: u32, s: u32, t: u32) -> (r: u32)
    ensures
        r == md5_op(md5_h(b, c, d), a, b, k, s, t),
{
    rotate_left((b ^ c ^ d).wrapping_add(a).wrapping_add(k).wrapping_add(t), s).wrapping_add(b)
}

/// Step of the fourth round.
pub fn i(a: u32, b: u32, c: u32, d: u32, k: u32, s: u32, t: u32) -> (r: u32)
    ensures
        r == md5_op(md5_i(b, c, d), a, b, k, s, t),
{
    rotate_left((c ^ (b | !d)).wrapping_add(a).wrapping_add(k).wrapping_add(t), s).wrapping_add(b)
}

/// Compresses one block of sixteen words into the state.
fn compress(hash: &[u32; 4], x: &[u32; 16]) -> (r: [u32; 4])
    ensures
        r@ == md5_compress(hash@, x@),
{
    let mut a = hash[0];
    let mut b = hash[1];
    let mut c = hash[2];
    let mut d = hash[3];
    let mut j: usize = 0;
    while j < 64
        invariant
            j <= 64,
            (a, b, c, d) == md5_steps((hash@[0], hash@[1], hash@[2], hash@[3]), x@, j as nat),
        decreases 64 - j,
    {
        let k: usize = if j < 16 {
            j
        } else if j < 32 {
            (5 * j + 1) % 16
        } else if j < 48 {
            (3 * j + 5) % 16
        } else {
            (7 * j) % 16
        };
        let s = SHIFT_TABLE[4 * (j / 16) + j % 4];
        let t = SINE_TABLE[j];
        let v = if j < 16 {
            f(a, b, c, d, x[k], s, t)
        } else if j < 32 {
            g(a, b, c, d, x[k], s, t)
        } else if j < 48 {
            h(a, b, c, d, x[k], s, t)
        } else {
            i(a, b, c, d, x[k], s, t)
        };
        let old_b = b;
        let old_c = c;
        a = d;
        d = old_c;
        c = old_b;
        b = v;
        j = j + 1;
    }
    let r = [
        a.wrapping_add(hash[0]),
        b.wrapping_add(hash[1]),
        c.wrapping_add(hash[2]),
        d.wrapping_add(hash[3]),
    ];
    assert(r@ =~= md5_compress(hash@, x@));
    r
}

/// Reads the sixteen little-endian words of the block at byte offset `off`.
fn block_words(p: &Vec<u8>, off: usize) -> (r: [u32; 16])
    requires
        off + 64 <= p.len(),
    ensures
        r@ == md5_block_words(p@, off as int),
{
    let mut x = [0u32; 16];
    let mut n: usize = 0;
    while n < 16
        invariant
            n <= 16,
            off + 64 <= p.len(),
            forall|m: int| 0 <= m < n ==> x@[m] == load_le32(p@, off + 4 * m),
        decreases 16 - n,
    {
        x[n] = read_le32(p, off + 4 * n);
        n = n + 1;
    }
    assert(x@ =~= md5_block_words(p@, off as int));
    x
}

/// An MD5 engine: the bytes appended so far and the four-word state.
pub struct MD5 {
    message: Vec<u8>,
    hash: [u32; 4],
    finalized: bool,
}

/// Create, append, finalize: the shape of the MD5 engine.
pub trait MD5Digest: Sized {
    type Output;

    /// Bytes per block.
    const BLOCK_SIZE: usize = 64;

    /// Bytes per digest.
    const HASH_SIZE: usize = 16;

    /// The engine's internal invariant.
    spec fn wf(&self) -> bool;

    /// Whether `finalize` produced this value; such an engine takes no
    /// more input and is not finalized again.
    spec fn is_finalized(&self) -> bool;

    fn new() -> (r: Self)
        ensures
            r.wf(),
            !r.is_finalized(),
    ;

    fn update(&mut self, input: &[u8])
        requires
            old(self).wf(),
            !old(self).is_finalized(),
        ensures
            final(self).wf(),
            !final(self).is_finalized(),
    ;

    fn finalize(self) -> Self::Output
        requires
            self.wf(),
            !self.is_finalized(),
    ;
}

impl MD5 {

    /// The bytes held: appended input, or the padded message once finalized.
    pub closed spec fn message(&self) -> Seq<u8> {
        self.message@
    }

    /// The four state words.
    pub closed spec fn state(&self) -> Seq<u32> {
        self.hash@
    }

    /// The state words.
    pub fn words(&self) -> (r: [u32; 4])
        ensures
            r@ == self.state(),
    {
        self.hash
    }

    /// The state rendered as 32 lowercase hexadecimal digits, each word
    /// byte-swapped first.
    pub fn hex_digest(&self) -> (r: String)
        ensures
            r@ == md5_hex(self.state()),
            r@.len() == 32,
    {
        let sw = [
            swap_bytes(self.hash[0]),
            swap_bytes(self.hash[1]),
            swap_bytes(self.hash[2]),
            swap_bytes(self.hash[3]),
        ];
        assert(sw@ =~= self.hash@.map_values(|w: u32| swap32(w)));
        proof {
            lemma_hex_words_len(sw@);
        }
        hex_string(&sw)
    }
}

impl MD5Digest for MD5 {
    type Output = Self;

    /// An engine that is still taking input holds the initial state.
    closed spec fn wf(&self) -> bool {
        !self.finalized ==> self.hash@ == md5_initial()
    }

    closed spec fn is_finalized(&self) -> bool {
        self.finalized
    }

    /// An engine with no input and the standard initial state.
    fn new() -> (r: Self)
        ensures
            r.message() == Seq::<u8>::empty(),
            r.state() == md5_initial(),
    {
        assert([0x6745_2301u32, 0xefcd_ab89u32, 0x98ba_dcfeu32, 0x1032_5476u32]@ =~= md5_initial());
        let r = MD5 {
            message: Vec::new(),
            hash: [0x6745_2301, 0xefcd_ab89, 0x98ba_dcfe, 0x1032_5476],
            finalized: false,
        };
        assert(r.hash@ =~= md5_initial());
        r
    }

    /// Appends `input` to the message; the state is untouched.
    fn update(&mut self, input: &[u8])
        ensures
            final(self).message() == old(self).message() + input@,
            final(self).state() == old(self).state(),
    {
        self.message.extend_from_slice(input);
        assert(self.message@ =~= old(self).message@ + input@);
    }

    /// Pads the message and compresses each of its blocks into the initial
    /// state: the result holds the digest of the message.
    fn finalize(self) -> (r: Self)
        ensures
            r.message() == md5_pad(self.message()),
            r.state() == md5_digest(self.message()),
            r.wf(),
            r.is_finalized(),
    {
        let ghost m0 = self.message@;
        let MD5 { message: mut msg, hash: mut st, finalized: _ } = self;
        let len = bit_length_of(msg.len());
        append_padding(&mut msg, &le64(len));
        proof {
            lemma_padded(m0, le64_bytes(len));
        }
        let total = msg.len();
        let nblocks = total / BLOCK_BYTES;
        let mut n: usize = 0;
        while n < nblocks
            invariant
                msg@ == md5_pad(m0),
                total == msg@.len(),
                nblocks == md5_pad(m0).len() / 64,
                md5_pad(m0).len() % 64 == 0,
                n <= nblocks,
                st@ == md5_blocks(md5_initial(), md5_pad(m0), n as nat),
            decreases nblocks - n,
        {
            assert(n * 64 + 64 <= msg@.len()) by (nonlinear_arith)
                requires
                    n < nblocks,
                    nblocks == msg@.len() / 64,
                    msg@.len() % 64 == 0,
            ;
            let x = block_words(&msg, n * BLOCK_BYTES);
            st = compress(&st, &x);
            n = n + 1;
        }
        MD5 { message: msg, hash: st, finalized: true }
    }
}

/// The MD5 digest of `input` as 32 lowercase hexadecimal digits: a fresh
/// engine, one update, finalize, render. The result depends on the bytes
/// alone.
pub fn hex_of(input: &[u8]) -> (r: String)
    ensures
        r@ == md5_hex(md5_digest(input@)),
        r@.len() == 32,
{
    let mut e = MD5::new();
    e.update(input);
    assert(Seq::<u8>::empty() + input@ =~= input@);
    let d = e.finalize();
    d.hex_digest()
}

/// The padded message is a whole number of blocks that starts with the
/// message, and its last eight bytes, read least significant first, give
/// the message length in bits (modulo 2^64).
pub proof fn lemma_md5_padding(m: Seq<u8>)
    ensures
        md5_pad(m).len() % 64 == 0,
        md5_pad(m).len() > m.len(),
        md5_pad(m).subrange(0, m.len() as int) == m,
        decode_le64(md5_pad(m).subrange(md5_pad(m).len() - 8, md5_pad(m).len() as int))
            == bit_length(m.len()),
        8 * m.len() < 0x1_0000_0000_0000_0000 ==> decode_le64(
            md5_pad(m).subrange(md5_pad(m).len() - 8, md5_pad(m).len() as int),
        ) == 8 * m.len(),
{
    lemma_padded(m, le64_bytes(bit_length(m.len())));
    lemma_length_field(m);
}

/// Compressing blocks into a four-word state leaves four words.
proof fn lemma_md5_blocks_len(h: Seq<u32>, p: Seq<u8>, n: nat)
    requires
        h.len() == 4,
    ensures
        md5_blocks(h, p, n).len() == 4,
{
}

/// Every message, the empty one included, has a digest of four words,
/// rendered as 32 hexadecimal digits.
pub proof fn lemma_md5_digest_len(m: Seq<u8>)
    ensures
        md5_digest(m).len() == 4,
        md5_hex(md5_digest(m)).len() == 32,
{
    lemma_md5_blocks_len(md5_initial(), md5_pad(m), md5_pad(m).len() / 64);
    lemma_hex_words_len(md5_digest(m).map_values(|w: u32| swap32(w)));
}

/// Appending a message in chunks, however it is split, gives the digest of
/// the whole message.
pub proof fn lemma_md5_chunks(chunks: Seq<Seq<u8>>)
    ensures
        md5_digest(appended(Seq::empty(), chunks)) == md5_digest(chunks.flatten()),
{
    lemma_appended(Seq::empty(), chunks);
    assert(Seq::<u8>::empty() + chunks.flatten() =~= chunks.flatten());
}

} // verus!
