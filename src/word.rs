//! 32-bit word arithmetic, byte-order conversions, message padding and hex
//! rendering shared by both digest engines.
use vstd::prelude::*;

verus! {

/// Size of one compression block in bytes.
pub const BLOCK_BYTES: usize = 64;

/// Lowercase hexadecimal digits, indexed by nibble value.
pub const HEX_DIGITS: [char; 16] = [
    '0', '1', '2', '3', '4', '5', '6', '7', '8', '9', 'a', 'b', 'c', 'd', 'e', 'f',
];

/// Addition modulo 2^32.
pub open spec fn add32(x: u32, y: u32) -> u32 {
    vstd::wrapping::u32_specs::wrapping_add(x, y)
}

/// Left rotation of a 32-bit word by `s` bits, taken modulo 32.
pub open spec fn rotl(x: u32, s: u32) -> u32 {
    let t = s % 32;
    if t == 0 {
        x
    } else {
        (x << t) | (x >> ((32 - t) as u32))
    }
}

pub fn rotate_left(x: u32, s: u32) -> (r: u32)
    ensures
        r == rotl(x, s),
{
    let t: u32 = s % 32;
    if t == 0 {
        x
    } else {
        (x << t) | (x >> (32 - t))
    }
}

/// The word with its four bytes in reverse order.
pub open spec fn swap32(x: u32) -> u32 {
    ((x & 0xff) << 24u32) | ((x & 0xff00) << 8u32) | ((x >> 8u32) & 0xff00) | (x >> 24u32)
}

pub fn swap_bytes(x: u32) -> (r: u32)
    ensures
        r == swap32(x),
{
    ((x & 0xff) << 24u32) | ((x & 0xff00) << 8u32) | ((x >> 8u32) & 0xff00) | (x >> 24u32)
}

/// The little-endian word stored in `b[i..i + 4]`.
pub open spec fn load_le32(b: Seq<u8>, i: int) -> u32 {
    (b[i] as u32) | ((b[i + 1] as u32) << 8u32) | ((b[i + 2] as u32) << 16u32) | ((
    b[i + 3] as u32) << 24u32)
}

/// The big-endian word stored in `b[i..i + 4]`.
pub open spec fn load_be32(b: Seq<u8>, i: int) -> u32 {
    ((b[i] as u32) << 24u32) | ((b[i + 1] as u32) << 16u32) | ((b[i + 2] as u32) << 8u32) | (
    b[i + 3] as u32)
}

pub fn read_le32(b: &Vec<u8>, i: usize) -> (r: u32)
    requires
        i + 4 <= b.len(),
    ensures
        r == load_le32(b@, i as int),
{
    (b[i] as u32) | ((b[i + 1] as u32) << 8u32) | ((b[i + 2] as u32) << 16u32) | ((
    b[i + 3] as u32) << 24u32)
}

pub fn read_be32(b: &Vec<u8>, i: usize) -> (r: u32)
    requires
        i + 4 <= b.len(),
    ensures
        r == load_be32(b@, i as int),
{
    ((b[i] as u32) << 24u32) | ((b[i + 1] as u32) << 16u32) | ((b[i + 2] as u32) << 8u32) | (
    b[i + 3] as u32)
}

/// The least significant byte of a 64-bit value.
pub open spec fn low_byte(y: u64) -> u8 {
    (y & 0xff) as u8
}

/// The eight bytes of `x`, least significant first.
pub open spec fn le64_bytes(x: u64) -> Seq<u8> {
    seq![
        low_byte(x),
        low_byte(x >> 8u64),
        low_byte(x >> 16u64),
        low_byte(x >> 24u64),
        low_byte(x >> 32u64),
        low_byte(x >> 40u64),
        low_byte(x >> 48u64),
        low_byte(x >> 56u64),
    ]
}

/// The eight bytes of `x`, most significant first.
pub open spec fn be64_bytes(x: u64) -> Seq<u8> {
    seq![
        low_byte(x >> 56u64),
        low_byte(x >> 48u64),
        low_byte(x >> 40u64),
        low_byte(x >> 32u64),
        low_byte(x >> 24u64),
        low_byte(x >> 16u64),
        low_byte(x >> 8u64),
        low_byte(x),
    ]
}

/// The value of eight bytes read least significant first.
pub open spec fn decode_le64(b: Seq<u8>) -> int {
    b[0] + 0x100 * b[1] + 0x1_0000 * b[2] + 0x100_0000 * b[3] + 0x1_0000_0000 * b[4]
        + 0x100_0000_0000 * b[5] + 0x1_0000_0000_0000 * b[6] + 0x100_0000_0000_0000 * b[7]
}

/// The value of eight bytes read most significant first.
pub open spec fn decode_be64(b: Seq<u8>) -> int {
    b[7] + 0x100 * b[6] + 0x1_0000 * b[5] + 0x100_0000 * b[4] + 0x1_0000_0000 * b[3]
        + 0x100_0000_0000 * b[2] + 0x1_0000_0000_0000 * b[1] + 0x100_0000_0000_0000 * b[0]
}

proof fn lemma_bytes_of_u64(x: u64)
    ensures
        x as int == low_byte(x) + 0x100 * low_byte(x >> 8u64) + 0x1_0000 * low_byte(x >> 16u64)
            + 0x100_0000 * low_byte(x >> 24u64) + 0x1_0000_0000 * low_byte(x >> 32u64)
            + 0x100_0000_0000 * low_byte(x >> 40u64) + 0x1_0000_0000_0000 * low_byte(x >> 48u64)
            + 0x100_0000_0000_0000 * low_byte(x >> 56u64),
{
    assert(x == (x & 0xff) + 0x100 * ((x >> 8) & 0xff) + 0x1_0000 * ((x >> 16) & 0xff)
        + 0x100_0000 * ((x >> 24) & 0xff) + 0x1_0000_0000 * ((x >> 32) & 0xff) + 0x100_0000_0000 * (
    (x >> 40) & 0xff) + 0x1_0000_0000_0000 * ((x >> 48) & 0xff) + 0x100_0000_0000_0000 * ((x
        >> 56) & 0xff)) by (bit_vector);
    lemma_low_byte(x);
    lemma_low_byte(x >> 8u64);
    lemma_low_byte(x >> 16u64);
    lemma_low_byte(x >> 24u64);
    lemma_low_byte(x >> 32u64);
    lemma_low_byte(x >> 40u64);
    lemma_low_byte(x >> 48u64);
    lemma_low_byte(x >> 56u64);
}

proof fn lemma_low_byte(y: u64)
    ensures
        low_byte(y) as int == (y & 0xff) as int,
{
    assert((y & 0xff) < 0x100) by (bit_vector);
}

/// Encoding a value in eight bytes either way round and decoding it gives
/// the value back.
pub proof fn lemma_decode_64(x: u64)
    ensures
        decode_le64(le64_bytes(x)) == x as int,
        decode_be64(be64_bytes(x)) == x as int,
{
    lemma_bytes_of_u64(x);
}

fn lowest_byte(y: u64) -> (r: u8)
    ensures
        r == low_byte(y),
{
    assert((y & 0xff) < 0x100) by (bit_vector);
    (y & 0xff) as u8
}

pub fn le64(x: u64) -> (r: [u8; 8])
    ensures
        r@ == le64_bytes(x),
{
    let r: [u8; 8] = [
        lowest_byte(x),
        lowest_byte(x >> 8u64),
        lowest_byte(x >> 16u64),
        lowest_byte(x >> 24u64),
        lowest_byte(x >> 32u64),
        lowest_byte(x >> 40u64),
        lowest_byte(x >> 48u64),
        lowest_byte(x >> 56u64),
    ];
    assert(r@ =~= le64_bytes(x));
    r
}

pub fn be64(x: u64) -> (r: [u8; 8])
    ensures
        r@ == be64_bytes(x),
{
    let r: [u8; 8] = [
        lowest_byte(x >> 56u64),
        lowest_byte(x >> 48u64),
        lowest_byte(x >> 40u64),
        lowest_byte(x >> 32u64),
        lowest_byte(x >> 24u64),
        lowest_byte(x >> 16u64),
        lowest_byte(x >> 8u64),
        lowest_byte(x),
    ];
    assert(r@ =~= be64_bytes(x));
    r
}

/// Number of zero bytes that follow the marker byte when padding a message
/// of `n` bytes, so that the marker, the zeros and an eight-byte length field
/// end on a block boundary.
pub open spec fn pad_zero_count(n: nat) -> nat {
    ((119 - (n % 64) as int) % 64) as nat
}

/// The length in bits of a message of `n` bytes, modulo 2^64.
pub open spec fn bit_length(n: nat) -> u64 {
    ((8 * n) % 0x1_0000_0000_0000_0000) as u64
}

/// `m` followed by the marker byte 0x80, the zero bytes and the length field.
pub open spec fn padded(m: Seq<u8>, len_field: Seq<u8>) -> Seq<u8> {
    m + seq![0x80u8] + Seq::new(pad_zero_count(m.len()), |i: int| 0u8) + len_field
}

/// A padded message is a whole number of blocks, at least one byte longer
/// than the message plus its length field, starts with the message, holds the
/// marker right after it and ends with the length field.
pub proof fn lemma_padded(m: Seq<u8>, len_field: Seq<u8>)
    requires
        len_field.len() == 8,
    ensures
        padded(m, len_field).len() % 64 == 0,
        m.len() + 9 <= padded(m, len_field).len() <= m.len() + 72,
        padded(m, len_field).subrange(0, m.len() as int) == m,
        padded(m, len_field)[m.len() as int] == 0x80u8,
        padded(m, len_field).subrange(
            padded(m, len_field).len() - 8,
            padded(m, len_field).len() as int,
        ) == len_field,
{
    let p = padded(m, len_field);
    assert(p.subrange(0, m.len() as int) =~= m);
    assert(p.subrange(p.len() - 8, p.len() as int) =~= len_field);
}

pub fn bit_length_of(n: usize) -> (r: u64)
    ensures
        r == bit_length(n as nat),
{
    (n as u64).wrapping_mul(8)
}

/// Appends the marker byte, the zero bytes and `len_field` to `msg`.
pub fn append_padding(msg: &mut Vec<u8>, len_field: &[u8; 8])
    ensures
        final(msg)@ == padded(old(msg)@, len_field@),
{
    let n = msg.len();
    msg.push(0x80);
    let zeros: usize = (119 - n % 64) % 64;
    let mut i: usize = 0;
    while i < zeros
        invariant
            i <= zeros,
            zeros == pad_zero_count(old(msg)@.len()),
            msg@ == old(msg)@ + seq![0x80u8] + Seq::new(i as nat, |j: int| 0u8),
        decreases zeros - i,
    {
        msg.push(0);
        i = i + 1;
        assert(msg@ =~= old(msg)@ + seq![0x80u8] + Seq::new(i as nat, |j: int| 0u8));
    }
    let ghost body = msg@;
    let mut k: usize = 0;
    while k < 8
        invariant
            k <= 8,
            msg@ == body + len_field@.subrange(0, k as int),
        decreases 8 - k,
    {
        msg.push(len_field[k]);
        k = k + 1;
        assert(msg@ =~= body + len_field@.subrange(0, k as int));
    }
    assert(len_field@.subrange(0, 8) =~= len_field@);
}

/// The digit for a nibble value below 16.
pub open spec fn hex_char(d: u32) -> char {
    HEX_DIGITS@[d as int]
}

/// The eight lowercase hexadecimal digits of `w`, most significant first.
pub open spec fn hex_word(w: u32) -> Seq<char> {
    Seq::new(8, |k: int| hex_char((w >> ((28 - 4 * k) as u32)) & 0xf))
}

/// The digits of each word in turn.
pub open spec fn hex_words(ws: Seq<u32>) -> Seq<char>
    decreases ws.len(),
{
    if ws.len() == 0 {
        Seq::empty()
    } else {
        hex_words(ws.drop_last()) + hex_word(ws.last())
    }
}

/// Each word renders as exactly eight digits.
pub proof fn lemma_hex_words_len(ws: Seq<u32>)
    ensures
        hex_words(ws).len() == 8 * ws.len(),
    decreases ws.len(),
{
    if ws.len() > 0 {
        lemma_hex_words_len(ws.drop_last());
    }
}

/// Relies on String::push: the character is appended at the end.
#[verifier::external_body]
fn push_char(s: &mut String, c: char)
    ensures
        final(s)@ == old(s)@.push(c),
{
    s.push(c);
}

pub fn push_hex_word(s: &mut String, w: u32)
    ensures
        final(s)@ == old(s)@ + hex_word(w),
{
    let mut k: u32 = 0;
    while k < 8
        invariant
            k <= 8,
            s@ == old(s)@ + hex_word(w).subrange(0, k as int),
        decreases 8 - k,
    {
        let sh: u32 = 28 - 4 * k;
        let d = (w >> sh) & 0xf;
        assert(d < 16) by (bit_vector)
            requires
                d == (w >> sh) & 0xf,
        ;
        push_char(s, HEX_DIGITS[d as usize]);
        k = k + 1;
        assert(s@ =~= old(s)@ + hex_word(w).subrange(0, k as int));
    }
    assert(hex_word(w).subrange(0, 8) =~= hex_word(w));
}

/// Renders each word as eight lowercase hexadecimal digits, in order.
pub fn hex_string(ws: &[u32]) -> (r: String)
    ensures
        r@ == hex_words(ws@),
{
    let mut s = String::new();
    let mut i: usize = 0;
    while i < ws.len()
        invariant
            i <= ws@.len(),
            s@ == hex_words(ws@.subrange(0, i as int)),
        decreases ws@.len() - i,
    {
        push_hex_word(&mut s, ws[i]);
        i = i + 1;
        assert(ws@.subrange(0, i as int).drop_last() =~= ws@.subrange(0, i - 1));
    }
    assert(ws@.subrange(0, ws@.len() as int) =~= ws@);
    s
}

/// The message held after appending each chunk in turn to `m`.
pub open spec fn appended(m: Seq<u8>, chunks: Seq<Seq<u8>>) -> Seq<u8>
    decreases chunks.len(),
{
    if chunks.len() == 0 {
        m
    } else {
        appended(m + chunks[0], chunks.drop_first())
    }
}

/// Appending chunks one by one holds the same bytes as appending their
/// concatenation at once.
pub proof fn lemma_appended(m: Seq<u8>, chunks: Seq<Seq<u8>>)
    ensures
        appended(m, chunks) == m + chunks.flatten(),
    decreases chunks.len(),
{
    if chunks.len() > 0 {
        lemma_appended(m + chunks[0], chunks.drop_first());
        assert(m + chunks[0] + chunks.drop_first().flatten() =~= m + chunks.flatten());
    } else {
        assert(m + chunks.flatten() =~= m);
    }
}

/// The eight-byte length field at the end of a padded message, decoded in
/// its own byte order, gives the message length in bits modulo 2^64, which
/// is the length in bits itself when that fits in 64 bits.
pub proof fn lemma_length_field(m: Seq<u8>)
    ensures
        decode_le64(
            padded(m, le64_bytes(bit_length(m.len()))).subrange(
                padded(m, le64_bytes(bit_length(m.len()))).len() - 8,
                padded(m, le64_bytes(bit_length(m.len()))).len() as int,
            ),
        ) == bit_length(m.len()),
        decode_be64(
            padded(m, be64_bytes(bit_length(m.len()))).subrange(
                padded(m, be64_bytes(bit_length(m.len()))).len() - 8,
                padded(m, be64_bytes(bit_length(m.len()))).len() as int,
            ),
        ) == bit_length(m.len()),
        8 * m.len() < 0x1_0000_0000_0000_0000 ==> bit_length(m.len()) == 8 * m.len(),
{
    lemma_padded(m, le64_bytes(bit_length(m.len())));
    lemma_padded(m, be64_bytes(bit_length(m.len())));
    lemma_decode_64(bit_length(m.len()));
}

} // verus!
