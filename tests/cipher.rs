use chacha20::{chacha20_block, double_round, quarter_round, round, set_band, ChaCha20, CipherError};

fn test_key() -> Vec<u8> {
    (0u8..32).collect()
}

fn block_test_nonce() -> Vec<u8> {
    vec![0x00, 0x00, 0x00, 0x09, 0x00, 0x00, 0x00, 0x4a, 0x00, 0x00, 0x00, 0x00]
}

fn inverse_quarter_round(q: [u32; 4]) -> [u32; 4] {
    let [mut a, mut b, mut c, mut d] = q;
    b = b.rotate_right(7) ^ c;
    c = c.wrapping_sub(d);
    d = d.rotate_right(8) ^ a;
    a = a.wrapping_sub(b);
    b = b.rotate_right(12) ^ c;
    c = c.wrapping_sub(d);
    d = d.rotate_right(16) ^ a;
    a = a.wrapping_sub(b);
    [a, b, c, d]
}

fn sample_words(seed: u32, n: usize) -> Vec<u32> {
    let mut x = seed;
    let mut out = Vec::new();
    for _ in 0..n {
        x ^= x << 13;
        x ^= x >> 17;
        x ^= x << 5;
        out.push(x);
    }
    out
}

#[test]
fn quarter_round_test_vector() {
    let mut q = [0x1111_1111u32, 0x0102_0304, 0x9b8d_6f43, 0x0123_4567];
    quarter_round(&mut q);
    assert_eq!(q, [0xea2a_92f4, 0xcb1c_f8ce, 0x4581_472e, 0x5881_c4bb]);
}

#[test]
fn quarter_round_is_invertible_on_samples() {
    let words = sample_words(0x1234_5678, 400);
    for chunk in words.chunks(4) {
        let input = [chunk[0], chunk[1], chunk[2], chunk[3]];
        let mut q = input;
        quarter_round(&mut q);
        assert_eq!(inverse_quarter_round(q), input);
    }
    let mut zero = [0u32; 4];
    quarter_round(&mut zero);
    assert_eq!(zero, [0, 0, 0, 0]);
}

#[test]
fn quarter_round_distinct_inputs_distinct_outputs() {
    let base = [1u32, 2, 3, 4];
    let mut outputs = Vec::new();
    for i in 0..4 {
        let mut q = base;
        q[i] ^= 1;
        quarter_round(&mut q);
        outputs.push(q);
    }
    let mut b = base;
    quarter_round(&mut b);
    outputs.push(b);
    for i in 0..outputs.len() {
        for j in (i + 1)..outputs.len() {
            assert_ne!(outputs[i], outputs[j]);
        }
    }
}

#[test]
fn block_function_test_vector() {
    let input: [u32; 16] = [
        0x6170_7865, 0x3320_646e, 0x7962_2d32, 0x6b20_6574,
        0x0302_0100, 0x0706_0504, 0x0b0a_0908, 0x0f0e_0d0c,
        0x1312_1110, 0x1716_1514, 0x1b1a_1918, 0x1f1e_1d1c,
        0x0000_0001, 0x0900_0000, 0x4a00_0000, 0x0000_0000,
    ];
    let out = chacha20_block(&input);
    assert_eq!(
        out,
        [
            0xe4e7_f110, 0x1559_3bd1, 0x1fdd_0f50, 0xc471_20a3,
            0xc7f4_d1c7, 0x0368_c033, 0x9aaa_2204, 0x4e6c_d4c3,
            0x4664_82d2, 0x09aa_9f07, 0x05d7_c214, 0xa202_8bd9,
            0xd19c_12b5, 0xb94e_16de, 0xe883_d0cb, 0x4e3c_50a2,
        ]
    );
}

#[test]
fn known_answer_keystream_block() {
    let c = ChaCha20::new(&test_key(), &block_test_nonce(), 1).unwrap();
    let expected: Vec<u8> = vec![
        0x10, 0xf1, 0xe7, 0xe4, 0xd1, 0x3b, 0x59, 0x15, 0x50, 0x0f, 0xdd, 0x1f, 0xa3, 0x20, 0x71, 0xc4,
        0xc7, 0xd1, 0xf4, 0xc7, 0x33, 0xc0, 0x68, 0x03, 0x04, 0x22, 0xaa, 0x9a, 0xc3, 0xd4, 0x6c, 0x4e,
        0xd2, 0x82, 0x64, 0x46, 0x07, 0x9f, 0xaa, 0x09, 0x14, 0xc2, 0xd7, 0x05, 0xd9, 0x8b, 0x02, 0xa2,
        0xb5, 0x12, 0x9c, 0xd1, 0xde, 0x16, 0x4e, 0xb9, 0xcb, 0xd0, 0x83, 0xe8, 0xa2, 0x50, 0x3c, 0x4e,
    ];
    assert_eq!(c.keystream_block(1), expected);
    assert_eq!(c.initial_counter(), 1);
}

#[test]
fn encryption_test_vector() {
    let nonce: Vec<u8> = vec![0, 0, 0, 0, 0, 0, 0, 0x4a, 0, 0, 0, 0];
    let c = ChaCha20::new(&test_key(), &nonce, 1).unwrap();
    let plaintext = b"Ladies and Gentlemen of the class of '99: If I could offer you only one tip for the future, sunscreen would be it.";
    let expected: Vec<u8> = vec![
        0x6e, 0x2e, 0x35, 0x9a, 0x25, 0x68, 0xf9, 0x80, 0x41, 0xba, 0x07, 0x28, 0xdd, 0x0d, 0x69, 0x81,
        0xe9, 0x7e, 0x7a, 0xec, 0x1d, 0x43, 0x60, 0xc2, 0x0a, 0x27, 0xaf, 0xcc, 0xfd, 0x9f, 0xae, 0x0b,
        0xf9, 0x1b, 0x65, 0xc5, 0x52, 0x47, 0x33, 0xab, 0x8f, 0x59, 0x3d, 0xab, 0xcd, 0x62, 0xb3, 0x57,
        0x16, 0x39, 0xd6, 0x24, 0xe6, 0x51, 0x52, 0xab, 0x8f, 0x53, 0x0c, 0x35, 0x9f, 0x08, 0x61, 0xd8,
        0x07, 0xca, 0x0d, 0xbf, 0x50, 0x0d, 0x6a, 0x61, 0x56, 0xa3, 0x8e, 0x08, 0x8a, 0x22, 0xb6, 0x5e,
        0x52, 0xbc, 0x51, 0x4d, 0x16, 0xcc, 0xf8, 0x06, 0x81, 0x8c, 0xe9, 0x1a, 0xb7, 0x79, 0x37, 0x36,
        0x5a, 0xf9, 0x0b, 0xbf, 0x74, 0xa3, 0x5b, 0xe6, 0xb4, 0x0b, 0x8e, 0xed, 0xf2, 0x78, 0x5e, 0x42,
        0x87, 0x4d,
    ];
    let ct = c.encrypt(plaintext, 1).unwrap();
    assert_eq!(ct, expected);
    assert_eq!(c.decrypt(&ct, 1).unwrap(), plaintext.to_vec());
}

#[test]
fn keystream_block_is_deterministic() {
    let a = ChaCha20::new(&test_key(), &block_test_nonce(), 1).unwrap();
    let b = ChaCha20::new(&test_key(), &block_test_nonce(), 77).unwrap();
    for ctr in [0u32, 1, 2, 1000, u32::MAX] {
        let first = a.keystream_block(ctr);
        assert_eq!(first.len(), 64);
        assert_eq!(a.keystream_block(ctr), first);
        assert_eq!(b.keystream_block(ctr), first);
    }
}

#[test]
fn round_trip_various_lengths() {
    let c = ChaCha20::new(&[7u8; 32], &[3u8; 12], 5).unwrap();
    for len in [0usize, 1, 63, 64, 65, 128, 200] {
        let p: Vec<u8> = (0..len).map(|i| (i * 31 % 251) as u8).collect();
        for ctr in [0u32, 9, u32::MAX - 10] {
            let ct = c.encrypt(&p, ctr).unwrap();
            assert_eq!(ct.len(), p.len());
            if len > 0 {
                assert_ne!(ct, p);
            }
            assert_eq!(c.decrypt(&ct, ctr).unwrap(), p);
        }
    }
}

#[test]
fn encryption_uses_consecutive_blocks() {
    let c = ChaCha20::new(&test_key(), &block_test_nonce(), 0).unwrap();
    let zeros = vec![0u8; 150];
    let ks = c.encrypt(&zeros, 40).unwrap();
    let mut expected = c.keystream_block(40);
    expected.extend(c.keystream_block(41));
    expected.extend(c.keystream_block(42).into_iter().take(22));
    assert_eq!(ks, expected);
}

#[test]
fn next_counter_gives_a_different_block() {
    let c = ChaCha20::new(&test_key(), &block_test_nonce(), 0).unwrap();
    for n in [0u32, 1, 2, 12345, u32::MAX - 1] {
        assert_ne!(c.keystream_block(n), c.keystream_block(n + 1));
    }
}

#[test]
fn counter_overflow_is_refused() {
    let c = ChaCha20::new(&test_key(), &block_test_nonce(), 0).unwrap();
    assert!(c.encrypt(&[0u8; 64], u32::MAX).is_ok());
    assert_eq!(c.encrypt(&[0u8; 65], u32::MAX), Err(CipherError::CounterOverflow));
    assert!(c.encrypt(&[0u8; 128], u32::MAX - 1).is_ok());
    assert_eq!(c.encrypt(&[0u8; 129], u32::MAX - 1), Err(CipherError::CounterOverflow));
    assert_eq!(c.decrypt(&[0u8; 65], u32::MAX), Err(CipherError::CounterOverflow));
    assert_eq!(c.encrypt(&[], u32::MAX), Ok(vec![]));
}

#[test]
fn invalid_lengths_are_refused() {
    assert_eq!(ChaCha20::new(&[0u8; 31], &[0u8; 12], 0).err(), Some(CipherError::InvalidKeyLength));
    assert_eq!(ChaCha20::new(&[0u8; 33], &[0u8; 11], 0).err(), Some(CipherError::InvalidKeyLength));
    assert_eq!(ChaCha20::new(&[0u8; 32], &[0u8; 11], 0).err(), Some(CipherError::InvalidNonceLength));
    assert_eq!(ChaCha20::new(&[0u8; 32], &[0u8; 13], 0).err(), Some(CipherError::InvalidNonceLength));
    assert!(ChaCha20::new(&[0u8; 32], &[0u8; 12], 0).is_ok());
}

fn sequential_round(s: &[u32; 16], bands: [[usize; 4]; 4]) -> [u32; 16] {
    let mut out = *s;
    for b in bands {
        let mut q = [out[b[0]], out[b[1]], out[b[2]], out[b[3]]];
        quarter_round(&mut q);
        for j in 0..4 {
            out[b[j]] = q[j];
        }
    }
    out
}

const COLUMNS: [[usize; 4]; 4] = [[0, 4, 8, 12], [1, 5, 9, 13], [2, 6, 10, 14], [3, 7, 11, 15]];
const DIAGONALS: [[usize; 4]; 4] = [[0, 5, 10, 15], [1, 6, 11, 12], [2, 7, 8, 13], [3, 4, 9, 14]];

#[test]
fn parallel_round_matches_sequential() {
    for seed in [1u32, 99, 0xdead_beef, 424242] {
        let w = sample_words(seed, 16);
        let mut s = [0u32; 16];
        s.copy_from_slice(&w);
        let mut col = s;
        round(&mut col, false);
        assert_eq!(col, sequential_round(&s, COLUMNS));
        assert_ne!(col, s);
        let mut diag = s;
        round(&mut diag, true);
        assert_eq!(diag, sequential_round(&s, DIAGONALS));
        let mut dr = s;
        double_round(&mut dr);
        assert_eq!(dr, sequential_round(&sequential_round(&s, COLUMNS), DIAGONALS));
    }
}

#[test]
fn set_band_writes_four_words() {
    let mut s = [0u32; 16];
    set_band(&mut s, &[10, 20, 30, 40], &[1, 6, 11, 12]);
    let mut expected = [0u32; 16];
    expected[1] = 10;
    expected[6] = 20;
    expected[11] = 30;
    expected[12] = 40;
    assert_eq!(s, expected);
}

#[test]
fn built_at_last_counter_allows_one_block() {
    let c = ChaCha20::new(&[0u8; 32], &[0u8; 12], u32::MAX).unwrap();
    let ctr = c.initial_counter();
    assert_eq!(ctr, u32::MAX);
    let one = c.encrypt(&[0u8; 64], ctr).unwrap();
    assert_eq!(one, c.keystream_block(u32::MAX));
    assert_eq!(c.encrypt(&[0u8; 65], ctr), Err(CipherError::CounterOverflow));
}

#[test]
fn bands_of_one_round_commute() {
    let w = sample_words(7, 16);
    let mut s = [0u32; 16];
    s.copy_from_slice(&w);
    for bands in [COLUMNS, DIAGONALS] {
        let reversed = [bands[3], bands[2], bands[1], bands[0]];
        assert_eq!(sequential_round(&s, bands), sequential_round(&s, reversed));
    }
}
