use blake2b::constants::{IV, SIGMA};
use blake2b::words::rotate_right;
use blake2b::{blake_compress, get_64, mix};

// The working vector that hashing "abc" into a 64-byte digest starts from.
fn abc_work_vector() -> [u64; 16] {
    [
        0x6a09e667f2bdc948, 0xbb67ae8584caa73b, 0x3c6ef372fe94f82b, 0xa54ff53a5f1d36f1,
        0x510e527fade682d1, 0x9b05688c2b3e6c1f, 0x1f83d9abfb41bd6b, 0x5be0cd19137e2179,
        0x6a09e667f3bcc908, 0xbb67ae8584caa73b, 0x3c6ef372fe94f82b, 0xa54ff53a5f1d36f1,
        0x510e527fade682d2, 0x9b05688c2b3e6c1f, 0xe07c265404be4294, 0x5be0cd19137e2179,
    ]
}

fn abc_block() -> [u8; 128] {
    let mut block = [0u8; 128];
    block[0] = b'a';
    block[1] = b'b';
    block[2] = b'c';
    block
}

fn spread() -> [u64; 16] {
    let mut v = [0u64; 16];
    for i in 0..16 {
        v[i] = 0x0123456789abcdefu64.wrapping_mul(i as u64 + 1);
    }
    v
}

#[test]
fn iv_is_the_published_vector() {
    assert_eq!(IV.len(), 8);
    assert_eq!(IV[0], 0x6a09e667f3bcc908);
    assert_eq!(IV[4], 0x510e527fade682d1);
    assert_eq!(IV[7], 0x5be0cd19137e2179);
}

#[test]
fn sigma_rows_are_permutations() {
    assert_eq!(SIGMA.len(), 12);
    for row in SIGMA.iter() {
        let mut seen = [false; 16];
        for &k in row.iter() {
            assert!(k < 16);
            assert!(!seen[k]);
            seen[k] = true;
        }
    }
}

#[test]
fn sigma_last_rows_repeat_the_first() {
    assert_eq!(SIGMA[10], SIGMA[0]);
    assert_eq!(SIGMA[11], SIGMA[1]);
    assert_eq!(SIGMA[9], [10, 2, 8, 4, 7, 6, 1, 5, 15, 11, 9, 14, 3, 12, 13, 0]);
}

#[test]
fn rotate_right_moves_low_bits_to_the_top() {
    assert_eq!(rotate_right(1, 1), 0x8000000000000000);
    assert_eq!(rotate_right(0x0123456789abcdef, 32), 0x89abcdef01234567);
    assert_eq!(rotate_right(0x0123456789abcdef, 24), 0xabcdef0123456789);
    assert_eq!(rotate_right(0x0123456789abcdef, 16), 0xcdef0123456789ab);
    assert_eq!(rotate_right(0x0123456789abcdef, 63), 0x02468acf13579bde);
}

#[test]
fn rotate_right_agrees_with_the_primitive() {
    let words = [0u64, 1, u64::MAX, 0x8000000000000001, 0xdeadbeefcafef00d];
    for &w in words.iter() {
        for n in 1u32..64 {
            assert_eq!(rotate_right(w, n), w.rotate_right(n));
        }
    }
}

#[test]
fn mix_first_step_of_abc() {
    let mut v = abc_work_vector();
    let x = 0x0000000000636261u64;
    let y = 0u64;
    mix(&mut v, 0, 4, 8, 12, &x, &y);
    let expected: [u64; 16] = [
        0xf0c9aa0f86491dea, 0xbb67ae8584caa73b, 0x3c6ef372fe94f82b, 0xa54ff53a5f1d36f1,
        0xb7defc3d0277e11f, 0x9b05688c2b3e6c1f, 0x1f83d9abfb41bd6b, 0x5be0cd19137e2179,
        0xee5e0f39647a9fff, 0xbb67ae8584caa73b, 0x3c6ef372fe94f82b, 0xa54ff53a5f1d36f1,
        0x7772fc2886a76c5f, 0x9b05688c2b3e6c1f, 0xe07c265404be4294, 0x5be0cd19137e2179,
    ];
    assert_eq!(v, expected);
}

#[test]
fn mix_first_round_of_abc() {
    let mut v = abc_work_vector();
    let mut m = [0u64; 16];
    m[0] = 0x0000000000636261;
    let s = SIGMA[0];
    mix(&mut v, 0, 4, 8, 12, &m[s[0]], &m[s[1]]);
    mix(&mut v, 1, 5, 9, 13, &m[s[2]], &m[s[3]]);
    mix(&mut v, 2, 6, 10, 14, &m[s[4]], &m[s[5]]);
    mix(&mut v, 3, 7, 11, 15, &m[s[6]], &m[s[7]]);
    mix(&mut v, 0, 5, 10, 15, &m[s[8]], &m[s[9]]);
    mix(&mut v, 1, 6, 11, 12, &m[s[10]], &m[s[11]]);
    mix(&mut v, 2, 7, 8, 13, &m[s[12]], &m[s[13]]);
    mix(&mut v, 3, 4, 9, 14, &m[s[14]], &m[s[15]]);
    let expected: [u64; 16] = [
        0x86b7c1568029bb79, 0xc12cbcc809ff59f3, 0xc6a5214cc0eaca8e, 0x0c87cd524c14cc5d,
        0x44ee6039bd86a9f7, 0xa447c850aa694a7e, 0xde080f1bb1c0f84b, 0x595cb8a9a1aca66c,
        0xbec3ae837eac4887, 0x6267fc79df9d6ad1, 0xfa87b01273fa6dbe, 0x521a715c63e08d8a,
        0xe02d0975b8d37a83, 0x1c7b754f08b7d193, 0x8f885a76b6e578fe, 0x2318a24e2140fc64,
    ];
    assert_eq!(v, expected);
}

#[test]
fn mix_touches_only_its_four_slots() {
    let before = spread();
    let mut v = before;
    mix(&mut v, 1, 6, 11, 12, &0xdeadbeefcafef00d, &0x0f1e2d3c4b5a6978);
    for i in 0..16 {
        if i != 1 && i != 6 && i != 11 && i != 12 {
            assert_eq!(v[i], before[i]);
        }
    }
    assert_eq!(v[1], 0x95f9ec3a8ee07d85);
    assert_eq!(v[6], 0xb8bfd82d5fc0bebd);
    assert_eq!(v[11], 0x41af637c0e9cb9c7);
    assert_eq!(v[12], 0xd457ca49b46d68c1);
}

#[test]
fn mix_is_not_its_own_inverse() {
    let before = spread();
    let mut v = before;
    mix(&mut v, 1, 6, 11, 12, &0xdeadbeefcafef00d, &0x0f1e2d3c4b5a6978);
    mix(&mut v, 1, 6, 11, 12, &0xdeadbeefcafef00d, &0x0f1e2d3c4b5a6978);
    assert_ne!(v, before);
}

#[test]
fn mix_with_coinciding_slots() {
    let mut v = spread();
    mix(&mut v, 2, 2, 2, 2, &5, &9);
    let mut expected = spread();
    expected[2] = 0;
    assert_eq!(v, expected);

    let mut v = spread();
    mix(&mut v, 0, 0, 1, 1, &u64::MAX, &1);
    let mut expected = spread();
    expected[0] = 0x16f1c8d7f221101b;
    expected[1] = 0x244f5e6f74051a2a;
    assert_eq!(v, expected);
}

#[test]
fn mix_wraps_on_overflow() {
    let mut v = [u64::MAX; 16];
    mix(&mut v, 0, 4, 8, 12, &u64::MAX, &u64::MAX);
    assert_eq!(v[0], 0x000000fffffffdfc);
    assert_eq!(v[4], 0xfbf801fbfe0403fd);
    assert_eq!(v[8], 0xfdfc000200fdfffe);
    assert_eq!(v[12], 0xfdfc000000fdffff);
    assert_eq!(v[1], u64::MAX);
}

#[test]
fn mix_of_zeros_is_zero() {
    let mut v = [0u64; 16];
    mix(&mut v, 0, 4, 8, 12, &0, &0);
    assert_eq!(v, [0u64; 16]);
}

#[test]
fn get_64_reads_lowest_byte_first() {
    assert_eq!(get_64(&[1, 2, 3, 4, 5, 6, 7, 8]), 0x0807060504030201);
    assert_eq!(get_64(&[0xff, 0, 0, 0, 0, 0, 0, 0]), 0xff);
    assert_eq!(get_64(&[0, 0, 0, 0, 0, 0, 0, 0x80]), 0x8000000000000000);
    assert_eq!(get_64(&[0xff; 8]), u64::MAX);
    assert_eq!(get_64(&[0; 8]), 0);
}

#[test]
fn get_64_ignores_bytes_past_the_eighth() {
    assert_eq!(get_64(&[0x61, 0x62, 0x63, 0, 0, 0, 0, 0, 0xaa, 0xbb]), 0x636261);
}

#[test]
fn get_64_agrees_with_the_primitive() {
    let bytes = [0x10, 0x32, 0x54, 0x76, 0x98, 0xba, 0xdc, 0xfe];
    assert_eq!(get_64(&bytes), u64::from_le_bytes(bytes));
}

#[test]
fn compress_abc_as_last_block() {
    let mut h = IV;
    h[0] ^= 0x01010040;
    blake_compress(&mut h, &abc_block(), 3, true);
    let expected: [u64; 8] = [
        0x0d4d1c983fa580ba, 0xe9f6129fb697276a, 0xb7c45a68142f214c, 0xd1a2ffdb6fbb124b,
        0x2d79ab2a39c5877d, 0x95cc3345ded552c2, 0x5a92f1dba88ad318, 0x239900d4ed8623b9,
    ];
    assert_eq!(h, expected);
}

#[test]
fn compress_empty_as_last_block() {
    let mut h = IV;
    h[0] ^= 0x01010040;
    blake_compress(&mut h, &[0u8; 128], 0, true);
    let expected: [u64; 8] = [
        0x03590142f7026a78, 0x72d2522585fdc6c6, 0x614758e140472f91, 0x19541ff717e2868a,
        0x5358eeaf31105ed2, 0x4bb04e9344648913, 0x55b748145b683a90, 0xcee29bfe1a706fd5,
    ];
    assert_eq!(h, expected);
}

#[test]
fn compress_depends_on_counter_and_flag() {
    let start = {
        let mut h = IV;
        h[0] ^= 0x01010040;
        h
    };
    let mut last = start;
    blake_compress(&mut last, &abc_block(), 3, true);
    let mut inner = start;
    blake_compress(&mut inner, &abc_block(), 3, false);
    let mut later = start;
    blake_compress(&mut later, &abc_block(), 4, true);
    assert_ne!(last, inner);
    assert_ne!(last, later);
    assert_ne!(inner, later);
    let expected_inner: [u64; 8] = [
        0x2c560a19d369ab75, 0x75271c8fd8f8ae51, 0x2cc4707240446987, 0x5287d2262c254498,
        0xf2a25e6d7f3e7498, 0x1bd39c0326d2e8d3, 0x66d6d3f2c46a424e, 0x3547de6f11c210a6,
    ];
    let expected_later: [u64; 8] = [
        0x31dbbd891aa33716, 0x0a337769a7a8fcaa, 0x73885a24173da15e, 0xfba27cbc6540deb2,
        0x9dec4e18d56c5237, 0x8ad7c152bfb103c9, 0x2070f42c151c9227, 0x4df982c88bb3c6f2,
    ];
    assert_eq!(inner, expected_inner);
    assert_eq!(later, expected_later);
}
