//! The keystream driver: state construction from key, nonce and counter,
//! keystream blocks, and encryption by exclusive-or with the keystream.

use crate::block::{block_spec, chacha20_block};
use vstd::prelude::*;

verus! {

/// Why an operation of the cipher was refused.
#[derive(Debug, Clone, Copy, PartialEq, Eq, Structural)]
pub enum CipherError {
    /// The key is not exactly 32 bytes long.
    InvalidKeyLength,
    /// The nonce is not exactly 12 bytes long.
    InvalidNonceLength,
    /// A block counter would pass 0xFFFF_FFFF.
    CounterOverflow,
}

// The four words of "expand 32-byte k", read little-endian.
pub const SIGMA0: u32 = 0x6170_7865;
pub const SIGMA1: u32 = 0x3320_646e;
pub const SIGMA2: u32 = 0x7962_2d32;
pub const SIGMA3: u32 = 0x6b20_6574;

/// The little-endian word made of bytes `b[off]` to `b[off + 3]`.
pub open spec fn le_word(b: Seq<u8>, off: int) -> u32 {
    (b[off] as int + 0x100 * b[off + 1] as int + 0x1_0000 * b[off + 2] as int + 0x100_0000 * b[off
        + 3] as int) as u32
}

/// The initial state: constants, eight key words, the block counter and
/// three nonce words.
pub open spec fn initial_state(key: Seq<u8>, nonce: Seq<u8>, counter: u32) -> Seq<u32> {
    seq![SIGMA0, SIGMA1, SIGMA2, SIGMA3] + Seq::new(8, |i: int| le_word(key, 4 * i)) + seq![counter]
        + Seq::new(3, |i: int| le_word(nonce, 4 * i))
}

/// Byte `j` (`0 <= j < 4`) of the little-endian encoding of `w`.
pub open spec fn le_byte(w: u32, j: int) -> u8 {
    ((w >> ((8 * j) as u32)) & 0xff) as u8
}

/// The words `w`, each as four little-endian bytes, in order.
pub open spec fn le_bytes(w: Seq<u32>) -> Seq<u8> {
    Seq::new(4 * w.len(), |i: int| le_byte(w[i / 4], i % 4))
}

/// The 64 keystream bytes of block `counter` for the key and nonce of `state`.
pub open spec fn keystream_spec(state: Seq<u32>, counter: u32) -> Seq<u8> {
    le_bytes(block_spec(state.update(12, counter)))
}

/// Whether every block that `len` bytes need, from `counter` on, has a
/// counter of at most 0xFFFF_FFFF.
pub open spec fn counter_fits(counter: u32, len: nat) -> bool {
    len == 0 || counter + (len - 1) / 64 <= u32::MAX
}

/// `data` combined by exclusive-or with the keystream that starts at block
/// `counter`: byte `i` uses byte `i % 64` of block `counter + i / 64`.
pub open spec fn apply_keystream_spec(state: Seq<u32>, counter: u32, data: Seq<u8>) -> Seq<u8> {
    Seq::new(
        data.len(),
        |i: int| data[i] ^ keystream_spec(state, (counter + i / 64) as u32)[i % 64],
    )
}

/// A ChaCha20 cipher: the sixteen-word state built from a key, a nonce and
/// an initial block counter.  A nonce must never be used twice with the
/// same key: the cipher cannot check this, and reuse reveals the XOR of
/// the two plaintexts.
pub struct ChaCha20 {
    state: [u32; 16],
}

impl ChaCha20 {
    /// The first four words are always the constants.
    #[verifier::type_invariant]
    spec fn constants_in_place(&self) -> bool {
        self.state[0] == SIGMA0 && self.state[1] == SIGMA1 && self.state[2] == SIGMA2
            && self.state[3] == SIGMA3
    }
}

impl View for ChaCha20 {
    type V = Seq<u32>;

    closed spec fn view(&self) -> Seq<u32> {
        self.state@
    }
}

/// Reads the little-endian word at `b[off..off + 4]`.
fn word_from_le(b: &[u8], off: usize) -> (r: u32)
    requires
        off + 4 <= b@.len(),
    ensures
        r == le_word(b@, off as int),
{
    b[off] as u32 + 0x100 * (b[off + 1] as u32) + 0x1_0000 * (b[off + 2] as u32) + 0x100_0000 * (
    b[off + 3] as u32)
}

/// Serializes sixteen words to 64 little-endian bytes.
fn serialize_words(w: &[u32; 16]) -> (r: Vec<u8>)
    ensures
        r@ == le_bytes(w@),
{
    let mut r: Vec<u8> = Vec::with_capacity(64);
    for i in 0..16
        invariant
            r@.len() == 4 * i,
            forall|m: int| 0 <= m < 4 * i ==> #[trigger] r@[m] == le_byte(w[m / 4], m % 4),
    {
        let x = w[i];
        proof {
            assert(le_byte(x, 0) == (x & 0xff) as u8 && le_byte(x, 1) == ((x >> 8) & 0xff) as u8
                && le_byte(x, 2) == ((x >> 16) & 0xff) as u8 && le_byte(x, 3) == ((x >> 24) & 0xff) as u8)
                by (bit_vector);
        }
        r.push((x & 0xff) as u8);
        r.push(((x >> 8) & 0xff) as u8);
        r.push(((x >> 16) & 0xff) as u8);
        r.push(((x >> 24) & 0xff) as u8);
        assert forall|j: int| 0 <= j < 4 implies #[trigger] r@[4 * i + j] == le_byte(
            w[(4 * i + j) / 4],
            (4 * i + j) % 4,
        ) by {
            assert((4 * i + j) / 4 == i && (4 * i + j) % 4 == j);
        }
        assert forall|m: int| 0 <= m < 4 * (i + 1) implies #[trigger] r@[m] == le_byte(
            w[m / 4],
            m % 4,
        ) by {
            if m >= 4 * i {
                assert(r@[4 * i + (m - 4 * i)] == le_byte(
                    w[(4 * i + (m - 4 * i)) / 4],
                    (4 * i + (m - 4 * i)) % 4,
                ));
            }
        }
    }
    assert(r@ =~= le_bytes(w@));
    r
}

impl ChaCha20 {
    /// Builds the cipher from a 32-byte key, a 12-byte nonce and the initial
    /// block counter.
    pub fn new(key: &[u8], nonce: &[u8], counter: u32) -> (r: Result<ChaCha20, CipherError>)
        ensures
            key@.len() != 32 <==> r == Err::<ChaCha20, CipherError>(CipherError::InvalidKeyLength),
            key@.len() == 32 && nonce@.len() != 12 <==> r == Err::<ChaCha20, CipherError>(
                CipherError::InvalidNonceLength,
            ),
            r is Ok <==> key@.len() == 32 && nonce@.len() == 12,
            r is Ok ==> r->Ok_0@ == initial_state(key@, nonce@, counter),
    {
        if key.len() != 32 {
            return Err(CipherError::InvalidKeyLength);
        }
        if nonce.len() != 12 {
            return Err(CipherError::InvalidNonceLength);
        }
        let mut state: [u32; 16] = [0u32; 16];
        state[0] = SIGMA0;
        state[1] = SIGMA1;
        state[2] = SIGMA2;
        state[3] = SIGMA3;
        for i in 0..8
            invariant
                key@.len() == 32,
                state[0] == SIGMA0 && state[1] == SIGMA1 && state[2] == SIGMA2 && state[3] == SIGMA3,
                forall|m: int| 0 <= m < i ==> #[trigger] state[4 + m] == le_word(key@, 4 * m),
        {
            state[4 + i] = word_from_le(key, 4 * i);
        }
        state[12] = counter;
        for i in 0..3
            invariant
                nonce@.len() == 12,
                state[0] == SIGMA0 && state[1] == SIGMA1 && state[2] == SIGMA2 && state[3] == SIGMA3,
                forall|m: int| 0 <= m < 8 ==> #[trigger] state[4 + m] == le_word(key@, 4 * m),
                state[12] == counter,
                forall|m: int| 0 <= m < i ==> #[trigger] state[13 + m] == le_word(nonce@, 4 * m),
        {
            state[13 + i] = word_from_le(nonce, 4 * i);
        }
        let r = ChaCha20 { state };
        let ghost init = initial_state(key@, nonce@, counter);
        assert forall|i: int| 0 <= i < 16 implies #[trigger] r@[i] == init[i] by {
            if 4 <= i < 12 {
                assert(state[4 + (i - 4)] == le_word(key@, 4 * (i - 4)));
            } else if 13 <= i {
                assert(state[13 + (i - 13)] == le_word(nonce@, 4 * (i - 13)));
            }
        }
        assert(r@ =~= init);
        Ok(r)
    }

    /// The block counter the cipher was built with.
    pub fn initial_counter(&self) -> (r: u32)
        ensures
            r == self@[12],
    {
        self.state[12]
    }

    /// The 64 keystream bytes of block `block_counter`; they depend on the
    /// key, the nonce and `block_counter` alone.
    pub fn keystream_block(&self, block_counter: u32) -> (r: Vec<u8>)
        ensures
            r@ == keystream_spec(self@, block_counter),
            r@.len() == 64,
    {
        let mut input: [u32; 16] = self.state;
        input[12] = block_counter;
        assert(input@ =~= self@.update(12, block_counter));
        let out = chacha20_block(&input);
        serialize_words(&out)
    }

    /// Combines `plaintext` by exclusive-or with the keystream that starts at
    /// block `initial_counter`: byte `i` with byte `i % 64` of block
    /// `initial_counter + i / 64`.  Fails with `CounterOverflow`, and
    /// produces nothing, when a block counter it needs would pass 0xFFFF_FFFF.
    pub fn encrypt(&self, plaintext: &[u8], initial_counter: u32) -> (r: Result<Vec<u8>, CipherError>)
        ensures
            r is Ok <==> counter_fits(initial_counter, plaintext@.len()),
            r is Ok ==> r->Ok_0@ == apply_keystream_spec(self@, initial_counter, plaintext@),
            r is Err ==> r->Err_0 == CipherError::CounterOverflow,
    {
        let len = plaintext.len();
        if len > 0 && initial_counter as u64 + ((len - 1) / 64) as u64 > 0xFFFF_FFFF {
            return Err(CipherError::CounterOverflow);
        }
        let mut out: Vec<u8> = Vec::with_capacity(len);
        let mut ks: Vec<u8> = Vec::new();
        for i in 0..len
            invariant
                len == plaintext@.len(),
                counter_fits(initial_counter, len as nat),
                out@.len() == i,
                forall|m: int| 0 <= m < i ==> #[trigger] out@[m] == plaintext@[m] ^ keystream_spec(
                    self@,
                    (initial_counter + m / 64) as u32,
                )[m % 64],
                i % 64 != 0 ==> ks@ == keystream_spec(self@, (initial_counter + i / 64) as u32),
                ks@.len() == 64 || i % 64 == 0,
        {
            if i % 64 == 0 {
                assert(i / 64 <= (len - 1) / 64) by (nonlinear_arith)
                    requires
                        i < len,
                ;
                ks = self.keystream_block(initial_counter + (i / 64) as u32);
            }
            out.push(plaintext[i] ^ ks[i % 64]);
            assert((i + 1) % 64 != 0 ==> (i + 1) / 64 == i / 64);
        }
        assert(out@ =~= apply_keystream_spec(self@, initial_counter, plaintext@));
        Ok(out)
    }

    /// Decryption: the same exclusive-or with the same keystream.
    pub fn decrypt(&self, ciphertext: &[u8], initial_counter: u32) -> (r: Result<Vec<u8>, CipherError>)
        ensures
            r is Ok <==> counter_fits(initial_counter, ciphertext@.len()),
            r is Ok ==> r->Ok_0@ == apply_keystream_spec(self@, initial_counter, ciphertext@),
            r is Err ==> r->Err_0 == CipherError::CounterOverflow,
    {
        self.encrypt(ciphertext, initial_counter)
    }
}

/// A keystream block is a function of the key, the nonce and the block
/// counter alone: the counter the cipher was built with plays no part.
pub proof fn lemma_keystream_deterministic(
    key: Seq<u8>,
    nonce: Seq<u8>,
    c1: u32,
    c2: u32,
    block_counter: u32,
)
    ensures
        keystream_spec(initial_state(key, nonce, c1), block_counter) == keystream_spec(
            initial_state(key, nonce, c2),
            block_counter,
        ),
{
    assert(initial_state(key, nonce, c1).update(12, block_counter) =~= initial_state(
        key,
        nonce,
        c2,
    ).update(12, block_counter));
}

/// Decrypting an encryption with the same key, nonce and initial counter
/// gives back the plaintext.
pub proof fn lemma_decrypt_encrypt_round_trip(state: Seq<u32>, counter: u32, p: Seq<u8>)
    ensures
        apply_keystream_spec(state, counter, apply_keystream_spec(state, counter, p)) == p,
{
    let c = apply_keystream_spec(state, counter, p);
    assert forall|i: int| 0 <= i < p.len() implies #[trigger] apply_keystream_spec(
        state,
        counter,
        c,
    )[i] == p[i] by {
        let k = keystream_spec(state, (counter + i / 64) as u32)[i % 64];
        let x = p[i];
        assert((x ^ k) ^ k == x) by (bit_vector);
    }
    assert(apply_keystream_spec(state, counter, c) =~= p);
}

/// Encryption is allowed exactly when no block it uses would need a counter
/// past 0xFFFF_FFFF: the counter of block `i / 64` never wraps around.
pub proof fn lemma_counter_never_wraps(counter: u32, len: nat)
    ensures
        counter_fits(counter, len) <==> forall|i: int|
            0 <= i < len ==> #[trigger] (counter + i / 64) <= u32::MAX,
{
    if counter_fits(counter, len) {
        assert forall|i: int| 0 <= i < len implies #[trigger] (counter + i / 64) <= u32::MAX by {
            assert(i / 64 <= (len - 1) / 64) by (nonlinear_arith)
                requires
                    0 <= i < len,
            ;
        }
    }
    if len > 0 {
        let last = len - 1;
        assert(counter + last / 64 == counter + (len - 1) / 64);
    }
}

} // verus!
