use hashes::md5::{f, g, h, i, MD5Digest, MD5};

#[test]
fn md5_test_1() {
    let input: &[u8] = "Hello".as_bytes();
    let mut hashtest = MD5::new();
    hashtest.update(input);
    let hashtest = hashtest.finalize();
    let result = hashtest.hex_digest();
    println!("{}", result);

    assert_eq!("8b1a9953c4611296a827abf8c47804d7", result);
}

#[test]
fn md5_test_2() {
    let input: &[u8] = b"a";
    let mut hashtest = MD5::new();
    hashtest.update(input);
    let hashtest = hashtest.finalize();
    let result = hashtest.hex_digest();
    println!("{}", result);

    assert_eq!("0cc175b9c0f1b6a831c399e269772661", result);
}

#[test]
fn md5_test_3() {
    let input: &[u8] = "".as_bytes();
    let mut hashtest = MD5::new();
    hashtest.update(input);
    let hashtest = hashtest.finalize();
    let result = hashtest.hex_digest();
    println!("{}", result);

    assert_eq!("d41d8cd98f00b204e9800998ecf8427e", result);
}

#[test]
fn test_4() {
    let input: &[u8] = b"abc";
    let mut hashtest = MD5::new();
    hashtest.update(input);
    let hashtest = hashtest.finalize();
    let result = hashtest.hex_digest();
    println!("{}", result);

    assert_eq!("900150983cd24fb0d6963f7d28e17f72", result);
}

#[test]
fn test_5() {
    let input: &[u8] = b"message digest";
    let mut hashtest = MD5::new();
    hashtest.update(input);
    let hashtest = hashtest.finalize();
    let result = hashtest.hex_digest();
    println!("{}", result);

    assert_eq!("f96b697d7cb7938d525a2f31aaf161d0", result);
}

#[test]
fn test_6() {
    let input: &[u8] = b"abcdefghijklmnopqrstuvwxyz";
    let mut hashtest = MD5::new();
    hashtest.update(input);
    let hashtest = hashtest.finalize();
    let result = hashtest.hex_digest();
    println!("{}", result);

    assert_eq!("c3fcd3d76192e4007dfb496cca67e13b", result);
}

#[test]
fn test_7() {
    let input: &[u8] = b"ABCDEFGHIJKLMNOPQRSTUVWXYZabcdefghijklmnopqrstuvwxyz0123456789";
    let mut hashtest = MD5::new();
    hashtest.update(input);
    let hashtest = hashtest.finalize();
    let result = hashtest.hex_digest();
    println!("{}", result);

    assert_eq!("d174ab98d277d9f5a5611c2c9f419d9f", result);
}

#[test]
fn test_8() {
    let input: &[u8] = b"12345678901234567890123456789012345678901234567890123456789012345678901234567890";
    let mut hashtest = MD5::new();
    hashtest.update(input);
    let hashtest = hashtest.finalize();
    let result = hashtest.hex_digest();
    println!("{}", result);

    assert_eq!("57edf4a22be3c955ac49da2e2107b67a", result);
}

fn md5_hex_of_chunks(chunks: &[&[u8]]) -> String {
    let mut e = MD5::new();
    for c in chunks {
        e.update(c);
    }
    e.finalize().hex_digest()
}

#[test]
fn md5_quick_brown_fox() {
    assert_eq!(
        "9e107d9d372bb6826bd81d3542a419d6",
        md5_hex_of_chunks(&[b"The quick brown fox jumps over the lazy dog"])
    );
}

#[test]
fn md5_chunk_splits_agree() {
    let msg: Vec<u8> = (0..200u32).map(|k| (k * 7 + 3) as u8).collect();
    let whole = md5_hex_of_chunks(&[&msg]);
    let bytes: Vec<&[u8]> = msg.chunks(1).collect();
    assert_eq!(whole, md5_hex_of_chunks(&bytes));
    let blocks: Vec<&[u8]> = msg.chunks(64).collect();
    assert_eq!(whole, md5_hex_of_chunks(&blocks));
    let odd: Vec<&[u8]> = vec![&msg[..0], &msg[..55], &msg[55..56], &msg[56..130], &msg[130..]];
    assert_eq!(whole, md5_hex_of_chunks(&odd));
}

#[test]
fn md5_split_message_digest() {
    assert_eq!(
        "f96b697d7cb7938d525a2f31aaf161d0",
        md5_hex_of_chunks(&[b"mess", b"", b"age dig", b"est"])
    );
}

#[test]
fn md5_hex_is_32_digits() {
    for n in [0usize, 1, 55, 56, 63, 64, 65, 119, 120, 128] {
        let msg = vec![0x61u8; n];
        let hex = md5_hex_of_chunks(&[&msg]);
        assert_eq!(32, hex.len());
        assert!(hex.chars().all(|c| c.is_ascii_hexdigit() && !c.is_ascii_uppercase()));
    }
}

#[test]
fn md5_block_boundaries_differ() {
    let a55 = md5_hex_of_chunks(&[&[0x61u8; 55]]);
    let a56 = md5_hex_of_chunks(&[&[0x61u8; 56]]);
    let a64 = md5_hex_of_chunks(&[&[0x61u8; 64]]);
    assert_ne!(a55, a56);
    assert_ne!(a56, a64);
}

#[test]
fn md5_initial_and_empty_words() {
    let e = MD5::new();
    assert_eq!([0x67452301, 0xefcdab89, 0x98badcfe, 0x10325476], e.words());
    assert_eq!("0123456789abcdeffedcba9876543210", e.hex_digest());
    let d = e.finalize();
    assert_eq!(0xd98c1dd4, d.words()[0]);
}

#[test]
fn md5_trait_constants() {
    assert_eq!(64, <MD5 as MD5Digest>::BLOCK_SIZE);
    assert_eq!(16, <MD5 as MD5Digest>::HASH_SIZE);
}

#[test]
fn md5_step_functions() {
    assert_eq!(2, f(1, 0, 0, 0, 0, 1, 0));
    assert_eq!(15, g(1, 0xffff_ffff, 0, 0, 0, 4, 0));
    assert_eq!(0x8000_0001, h(0, 1, 2, 4, 1, 28, 0));
    assert_eq!(0, i(1, 0, 0, 0, 0, 5, 0));
    assert_eq!(0x2000_0000, f(0, 0, 0, 0, 0, 29, 1));
}

#[test]
fn md5_hex_of_known_answers() {
    assert_eq!("d41d8cd98f00b204e9800998ecf8427e", hashes::md5::hex_of(b""));
    assert_eq!("900150983cd24fb0d6963f7d28e17f72", hashes::md5::hex_of(b"abc"));
    assert_eq!("f96b697d7cb7938d525a2f31aaf161d0", hashes::md5::hex_of(b"message digest"));
}

#[test]
fn md5_same_input_same_digest() {
    let msg = b"reproducible";
    assert_eq!(hashes::md5::hex_of(msg), hashes::md5::hex_of(msg));
    assert_eq!(hashes::md5::hex_of(msg), md5_hex_of_chunks(&[b"repro", b"ducible"]));
}

#[test]
fn md5_step_functions_take_any_shift() {
    assert_eq!(0xffff_ffff, i(0, 0, 0, 0, 0, 0, 0));
    assert_eq!(f(1, 0, 0, 0, 0, 1, 0), f(1, 0, 0, 0, 0, 33, 0));
    assert_eq!(1, f(1, 0, 0, 0, 0, 32, 0));
    assert_eq!(8, h(0, 1, 2, 4, 0, 0, 0));
    assert_eq!(g(1, 0xffff_ffff, 0, 0, 0, 4, 0), g(1, 0xffff_ffff, 0, 0, 0, 36, 0));
}
