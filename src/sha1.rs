//! The SHA-1 engine: message accumulation, big-endian padding, message
//! schedule expansion and the 80-step compression function.
use vstd::prelude::*;

use crate::word::{
    add32, append_padding, appended, be64, be64_bytes, bit_length, bit_length_of, decode_be64,
    hex_string, hex_words, lemma_appended, lemma_hex_words_len, lemma_length_field, lemma_padded,
    load_be32, padded, read_be32, rotate_left, rotl, BLOCK_BYTES,
};

verus! {

/// The initial state words h0 to h4.
pub open spec fn sha1_initial() -> Seq<u32> {
    seq![0x67452301u32, 0xefcdab89u32, 0x98badcfeu32, 0x10325476u32, 0xc3d2e1f0u32]
}

/// The nonlinear function of step `j`.
pub open spec fn sha1_mix(j: int, b: u32, c: u32, d: u32) -> u32 {
    if j < 20 {
        (b & c) | (!b & d)
    } else if j < 40 {
        b ^ c ^ d
    } else if j < 60 {
        (b & c) | (b & d) | (c & d)
    } else {
        b ^ c ^ d
    }
}

/// The additive constant of step `j`.
pub open spec fn sha1_k(j: int) -> u32 {
    if j < 20 {
        0x5a827999
    } else if j < 40 {
        0x6ed9eba1
    } else if j < 60 {
        0x8f1bbcdc
    } else {
        0xca62c1d6
    }
}

/// Word `i` of the message schedule expanded from the sixteen block words `x`.
pub open spec fn sha1_schedule(x: Seq<u32>, i: int) -> u32
    decreases i,
{
    if i < 16 {
        x[i]
    } else {
        rotl(
            sha1_schedule(x, i - 3) ^ sha1_schedule(x, i - 8) ^ sha1_schedule(x, i - 14)
                ^ sha1_schedule(x, i - 16),
            1,
        )
    }
}

/// The working words `(A, B, C, D, E)` after the first `n` steps over the
/// expanded schedule `w`.
pub open spec fn sha1_steps(st: (u32, u32, u32, u32, u32), w: Seq<u32>, n: nat) -> (
    u32,
    u32,
    u32,
    u32,
    u32,
)
    decreases n,
{
    if n == 0 {
        st
    } else {
        let (a, b, c, d, e) = sha1_steps(st, w, (n - 1) as nat);
        let j = n - 1;
        let temp = add32(add32(add32(add32(rotl(a, 5), sha1_mix(j, b, c, d)), e), sha1_k(j)), w[j]);
        (temp, a, rotl(b, 30), c, d)
    }
}

/// The eighty schedule words of block words `x`.
pub open spec fn sha1_expand(x: Seq<u32>) -> Seq<u32> {
    Seq::new(80, |i: int| sha1_schedule(x, i))
}

/// The state after compressing one block, given as sixteen words.
pub open spec fn sha1_compress(h: Seq<u32>, x: Seq<u32>) -> Seq<u32> {
    let (a, b, c, d, e) = sha1_steps((h[0], h[1], h[2], h[3], h[4]), sha1_expand(x), 80);
    seq![add32(h[0], a), add32(h[1], b), add32(h[2], c), add32(h[3], d), add32(h[4], e)]
}

/// The sixteen big-endian words of the block at byte offset `off`.
pub open spec fn sha1_block_words(p: Seq<u8>, off: int) -> Seq<u32> {
    Seq::new(16, |i: int| load_be32(p, off + 4 * i))
}

/// The state after compressing the first `n` blocks of `p`, starting from `h`.
pub open spec fn sha1_blocks(h: Seq<u32>, p: Seq<u8>, n: nat) -> Seq<u32>
    decreases n,
{
    if n == 0 {
        h
    } else {
        sha1_compress(sha1_blocks(h, p, (n - 1) as nat), sha1_block_words(p, 64 * (n - 1)))
    }
}

/// The padded message: the bit length goes last, most significant byte first.
pub open spec fn sha1_pad(m: Seq<u8>) -> Seq<u8> {
    padded(m, be64_bytes(bit_length(m.len())))
}

/// The digest words of message `m`.
pub open spec fn sha1_digest(m: Seq<u8>) -> Seq<u32> {
    sha1_blocks(sha1_initial(), sha1_pad(m), sha1_pad(m).len() / 64)
}

/// Expands sixteen block words to the eighty words of the schedule.
fn expand(x: &[u32; 16]) -> (w: [u32; 80])
    ensures
        w@ == sha1_expand(x@),
{
    let mut w = [0u32; 80];
    let mut n: usize = 0;
    while n < 16
        invariant
            n <= 16,
            forall|m: int| 0 <= m < n ==> w@[m] == sha1_schedule(x@, m),
        decreases 16 - n,
    {
        w[n] = x[n];
        n = n + 1;
    }
    while n < 80
        invariant
            16 <= n <= 80,
            forall|m: int| 0 <= m < n ==> w@[m] == sha1_schedule(x@, m),
        decreases 80 - n,
    {
        let temp = w[n - 3] ^ w[n - 8] ^ w[n - 14] ^ w[n - 16];
        w[n] = rotate_left(temp, 1);
        n = n + 1;
    }
    assert(w@ =~= sha1_expand(x@));
    w
}

/// Compresses one block of sixteen words into the state.
fn compress(hash: &[u32; 5], x: &[u32; 16]) -> (r: [u32; 5])
    ensures
        r@ == sha1_compress(hash@, x@),
{
    let w = expand(x);
    let mut a = hash[0];
    let mut b = hash[1];
    let mut c = hash[2];
    let mut d = hash[3];
    let mut e = hash[4];
    let mut j: usize = 0;
    while j < 80
        invariant
            j <= 80,
            w@ == sha1_expand(x@),
            (a, b, c, d, e) == sha1_steps(
                (hash@[0], hash@[1], hash@[2], hash@[3], hash@[4]),
                w@,
                j as nat,
            ),
        decreases 80 - j,
    {
        let (f, k) = if j < 20 {
            ((b & c) | (!b & d), 0x5a82_7999u32)
        } else if j < 40 {
            (b ^ c ^ d, 0x6ed9_eba1u32)
        } else if j < 60 {
            ((b & c) | (b & d) | (c & d), 0x8f1b_bcdcu32)
        } else {
            (b ^ c ^ d, 0xca62_c1d6u32)
        };
        let temp = rotate_left(a, 5).wrapping_add(f).wrapping_add(e).wrapping_add(k).wrapping_add(
            w[j],
        );
        e = d;
        d = c;
        c = rotate_left(b, 30);
        b = a;
        a = temp;
        j = j + 1;
    }
    let r = [
        hash[0].wrapping_add(a),
        hash[1].wrapping_add(b),
        hash[2].wrapping_add(c),
        hash[3].wrapping_add(d),
        hash[4].wrapping_add(e),
    ];
    assert(r@ =~= sha1_compress(hash@, x@));
    r
}

/// Reads the sixteen big-endian words of the block at byte offset `off`.
fn block_words(p: &Vec<u8>, off: usize) -> (r: [u32; 16])
    requires
        off + 64 <= p.len(),
    ensures
        r@ == sha1_block_words(p@, off as int),
{
    let mut x = [0u32; 16];
    let mut n: usize = 0;
    while n < 16
        invariant
            n <= 16,
            off + 64 <= p.len(),
            forall|m: int| 0 <= m < n ==> x@[m] == load_be32(p@, off + 4 * m),
        decreases 16 - n,
    {
        x[n] = read_be32(p, off + 4 * n);
        n = n + 1;
    }
    assert(x@ =~= sha1_block_words(p@, off as int));
    x
}

/// A SHA-1 engine: the bytes appended so far and the five-word state.
pub struct Sha1 {
    message: Vec<u8>,
    hash: [u32; 5],
    finalized: bool,
}

/// Create, append, finalize: the shape of the SHA-1 engine.
pub trait Sha1Digest: Sized {
    type Output;

    /// Bytes per block.
    const BLOCK_SIZE: usize = 64;

    /// Bytes per digest.
    const HASH_SIZE: usize = 20;

    /// The engine's internal invariant.
    spec fn wf(&self) -> bool;

    /// Whether `finalize` produced this value; such an engine takes no
    /// more input and is not finalized again.
    spec fn is_finalized(&self) -> bool;

    fn new() -> (r: Self)
        ensures
            r.wf(),
            !r.is_finalized(),
    ;

    fn update(&mut self, input: &[u8])
        requires
            old(self).wf(),
            !old(self).is_finalized(),
        ensures
            final(self).wf(),
            !final(self).is_finalized(),
    ;

    fn finalize(self) -> Self::Output
        requires
            self.wf(),
            !self.is_finalized(),
    ;
}

impl Sha1 {
    /// The bytes held: appended input, or the padded message once finalized.
    pub closed spec fn message(&self) -> Seq<u8> {
        self.message@
    }

    /// The five state words.
    pub closed spec fn state(&self) -> Seq<u32> {
        self.hash@
    }

    /// The state words.
    pub fn words(&self) -> (r: [u32; 5])
        ensures
            r@ == self.state(),
    {
        self.hash
    }

    /// The state rendered as 40 lowercase hexadecimal digits, word by word.
    pub fn hex_digest(&self) -> (r: String)
        ensures
            r@ == hex_words(self.state()),
            r@.len() == 40,
    {
        proof {
            lemma_hex_words_len(self.hash@);
        }
        hex_string(&self.hash)
    }
}

impl Sha1Digest for Sha1 {
    type Output = Self;

    /// An engine that is still taking input holds the initial state.
    closed spec fn wf(&self) -> bool {
        !self.finalized ==> self.hash@ == sha1_initial()
    }

    closed spec fn is_finalized(&self) -> bool {
        self.finalized
    }

    /// An engine with no input and the standard initial state.
    fn new() -> (r: Self)
        ensures
            r.message() == Seq::<u8>::empty(),
            r.state() == sha1_initial(),
    {
        let r = Sha1 {
            message: Vec::new(),
            hash: [0x67452301, 0xefcdab89, 0x98badcfe, 0x10325476, 0xc3d2e1f0],
            finalized: false,
        };
        assert(r.hash@ =~= sha1_initial());
        r
    }

    /// Appends `input` to the message; the state is untouched.
    fn update(&mut self, input: &[u8])
        ensures
            final(self).message() == old(self).message() + input@,
            final(self).state() == old(self).state(),
    {
        self.message.extend_from_slice(input);
        assert(self.message@ =~= old(self).message@ + input@);
    }

    /// Pads the message and compresses each of its blocks into the initial
    /// state: the result holds the digest of the message.
    fn finalize(self) -> (r: Self)
        ensures
            r.message() == sha1_pad(self.message()),
            r.state() == sha1_digest(self.message()),
            r.wf(),
            r.is_finalized(),
    {
        let ghost m0 = self.message@;
        let Sha1 { message: mut msg, hash: mut st, finalized: _ } = self;
        let len = bit_length_of(msg.len());
        append_padding(&mut msg, &be64(len));
        proof {
            lemma_padded(m0, be64_bytes(len));
        }
        let total = msg.len();
        let nblocks = total / BLOCK_BYTES;
        let mut n: usize = 0;
        while n < nblocks
            invariant
                msg@ == sha1_pad(m0),
                total == msg@.len(),
                nblocks == sha1_pad(m0).len() / 64,
                sha1_pad(m0).len() % 64 == 0,
                n <= nblocks,
                st@ == sha1_blocks(sha1_initial(), sha1_pad(m0), n as nat),
            decreases nblocks - n,
        {
            assert(n * 64 + 64 <= msg@.len()) by (nonlinear_arith)
                requires
                    n < nblocks,
                    nblocks == msg@.len() / 64,
                    msg@.len() % 64 == 0,
            ;
            let x = block_words(&msg, n * BLOCK_BYTES);
            st = compress(&st, &x);
            n = n + 1;
        }
        Sha1 { message: msg, hash: st, finalized: true }
    }
}

/// The SHA-1 digest of `input` as 40 lowercase hexadecimal digits: a fresh
/// engine, one update, finalize, render. The result depends on the bytes
/// alone.
pub fn hex_of(input: &[u8]) -> (r: String)
    ensures
        r@ == hex_words(sha1_digest(input@)),
        r@.len() == 40,
{
    let mut e = Sha1::new();
    e.update(input);
    assert(Seq::<u8>::empty() + input@ =~= input@);
    let d = e.finalize();
    d.hex_digest()
}

/// The padded message is a whole number of blocks that starts with the
/// message, and its last eight bytes, read most significant first, give the
/// message length in bits (modulo 2^64).
pub proof fn lemma_sha1_padding(m: Seq<u8>)
    ensures
        sha1_pad(m).len() % 64 == 0,
        sha1_pad(m).len() > m.len(),
        sha1_pad(m).subrange(0, m.len() as int) == m,
        decode_be64(sha1_pad(m).subrange(sha1_pad(m).len() - 8, sha1_pad(m).len() as int))
            == bit_length(m.len()),
        8 * m.len() < 0x1_0000_0000_0000_0000 ==> decode_be64(
            sha1_pad(m).subrange(sha1_pad(m).len() - 8, sha1_pad(m).len() as int),
        ) == 8 * m.len(),
{
    lemma_padded(m, be64_bytes(bit_length(m.len())));
    lemma_length_field(m);
}

/// Compressing blocks into a five-word state leaves five words.
proof fn lemma_sha1_blocks_len(h: Seq<u32>, p: Seq<u8>, n: nat)
    requires
        h.len() == 5,
    ensures
        sha1_blocks(h, p, n).len() == 5,
{
}

/// Every message, the empty one included, has a digest of five words,
/// rendered as 40 hexadecimal digits.
pub proof fn lemma_sha1_digest_len(m: Seq<u8>)
    ensures
        sha1_digest(m).len() == 5,
        hex_words(sha1_digest(m)).len() == 40,
{
    lemma_sha1_blocks_len(sha1_initial(), sha1_pad(m), sha1_pad(m).len() / 64);
    lemma_hex_words_len(sha1_digest(m));
}

/// Appending a message in chunks, however it is split, gives the digest of
/// the whole message.
pub proof fn lemma_sha1_chunks(chunks: Seq<Seq<u8>>)
    ensures
        sha1_digest(appended(Seq::empty(), chunks)) == sha1_digest(chunks.flatten()),
{
    lemma_appended(Seq::empty(), chunks);
    assert(Seq::<u8>::empty() + chunks.flatten() =~= chunks.flatten());
}

} // verus!
