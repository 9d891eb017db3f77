//! The ChaCha20 block function: quarter-rounds, column and diagonal rounds,
//! and the twenty-round permutation followed by the feed-forward addition.

use rayon::iter::{IntoParallelRefMutIterator, ParallelIterator};
use vstd::prelude::*;

verus! {

/// Rotates a 32-bit word left by `n` bits, `0 < n < 32`.
pub open spec fn rotl(x: u32, n: u32) -> u32 {
    (x << n) | (x >> ((32 - n) as u32))
}

/// The quarter-round on four words `(a, b, c, d)`.
pub open spec fn quarter_round_words(a: u32, b: u32, c: u32, d: u32) -> (u32, u32, u32, u32) {
    let a = a.wrapping_add(b);
    let d = rotl(d ^ a, 16);
    let c = c.wrapping_add(d);
    let b = rotl(b ^ c, 12);
    let a = a.wrapping_add(b);
    let d = rotl(d ^ a, 8);
    let c = c.wrapping_add(d);
    let b = rotl(b ^ c, 7);
    (a, b, c, d)
}

/// The quarter-round on a sequence of four words.
pub open spec fn quarter_round_seq(q: Seq<u32>) -> Seq<u32> {
    let (a, b, c, d) = quarter_round_words(q[0], q[1], q[2], q[3]);
    seq![a, b, c, d]
}

/// Rotates a 32-bit word right by `n` bits, `0 < n < 32`.
pub open spec fn rotr(x: u32, n: u32) -> u32 {
    (x >> n) | (x << ((32 - n) as u32))
}

/// The steps of the quarter-round undone in reverse order.
pub open spec fn quarter_round_inverse_words(a: u32, b: u32, c: u32, d: u32) -> (u32, u32, u32, u32) {
    let b = rotr(b, 7) ^ c;
    let c = c.wrapping_sub(d);
    let d = rotr(d, 8) ^ a;
    let a = a.wrapping_sub(b);
    let b = rotr(b, 12) ^ c;
    let c = c.wrapping_sub(d);
    let d = rotr(d, 16) ^ a;
    let a = a.wrapping_sub(b);
    (a, b, c, d)
}

/// Each step of the quarter-round can be undone.
proof fn lemma_word_steps_invertible()
    by (bit_vector)
    ensures
        forall|x: u32, y: u32| #[trigger] ((x ^ y) ^ y) == x,
        forall|x: u32, y: u32| #[trigger] x.wrapping_add(y).wrapping_sub(y) == x,
        forall|x: u32, y: u32| #[trigger] x.wrapping_sub(y).wrapping_add(y) == x,
        forall|x: u32| #[trigger] rotr(rotl(x, 16), 16) == x,
        forall|x: u32| #[trigger] rotr(rotl(x, 12), 12) == x,
        forall|x: u32| #[trigger] rotr(rotl(x, 8), 8) == x,
        forall|x: u32| #[trigger] rotr(rotl(x, 7), 7) == x,
        forall|x: u32| #[trigger] rotl(rotr(x, 16), 16) == x,
        forall|x: u32| #[trigger] rotl(rotr(x, 12), 12) == x,
        forall|x: u32| #[trigger] rotl(rotr(x, 8), 8) == x,
        forall|x: u32| #[trigger] rotl(rotr(x, 7), 7) == x,
{
}

/// The quarter-round is a bijection on four words: undoing its steps in
/// reverse order recovers the input, and every output has such a preimage.
pub proof fn lemma_quarter_round_bijective(a: u32, b: u32, c: u32, d: u32)
    ensures
        ({
            let (w, x, y, z) = quarter_round_words(a, b, c, d);
            quarter_round_inverse_words(w, x, y, z) == (a, b, c, d)
        }),
        ({
            let (w, x, y, z) = quarter_round_inverse_words(a, b, c, d);
            quarter_round_words(w, x, y, z) == (a, b, c, d)
        }),
{
    lemma_word_steps_invertible();
}

/// Distinct inputs of the quarter-round give distinct outputs.
pub proof fn lemma_quarter_round_injective(q: Seq<u32>, r: Seq<u32>)
    requires
        q.len() == 4,
        r.len() == 4,
        quarter_round_seq(q) == quarter_round_seq(r),
    ensures
        q == r,
{
    lemma_quarter_round_bijective(q[0], q[1], q[2], q[3]);
    lemma_quarter_round_bijective(r[0], r[1], r[2], r[3]);
    let oq = quarter_round_seq(q);
    let or = quarter_round_seq(r);
    assert(oq[0] == or[0] && oq[1] == or[1] && oq[2] == or[2] && oq[3] == or[3]);
    assert(q =~= r);
}

fn rotate_left_16(x: u32) -> (r: u32)
    ensures
        r == rotl(x, 16),
{
    (x << 16) | (x >> 16)
}

fn rotate_left_12(x: u32) -> (r: u32)
    ensures
        r == rotl(x, 12),
{
    (x << 12) | (x >> 20)
}

fn rotate_left_8(x: u32) -> (r: u32)
    ensures
        r == rotl(x, 8),
{
    (x << 8) | (x >> 24)
}

fn rotate_left_7(x: u32) -> (r: u32)
    ensures
        r == rotl(x, 7),
{
    (x << 7) | (x >> 25)
}

/// Applies the quarter-round in place to four words.
pub fn quarter_round(q: &mut [u32; 4])
    ensures
        final(q)@ == quarter_round_seq(old(q)@),
{
    let mut a = q[0];
    let mut b = q[1];
    let mut c = q[2];
    let mut d = q[3];
    a = a.wrapping_add(b);
    d = rotate_left_16(d ^ a);
    c = c.wrapping_add(d);
    b = rotate_left_12(b ^ c);
    a = a.wrapping_add(b);
    d = rotate_left_8(d ^ a);
    c = c.wrapping_add(d);
    b = rotate_left_7(b ^ c);
    q[0] = a;
    q[1] = b;
    q[2] = c;
    q[3] = d;
    assert(q@ =~= quarter_round_seq(old(q)@));
}


/// The state indices of band `k` (`0 <= k < 4`): a column of the 4x4 grid, or
/// the diagonal that starts at column `k` of the first row.  Entry `j` of a
/// band lies in row `j`.
pub open spec fn band(diagonal: bool, k: int) -> Seq<int> {
    if diagonal {
        seq![k, 4 + (k + 1) % 4, 8 + (k + 2) % 4, 12 + (k + 3) % 4]
    } else {
        seq![k, k + 4, k + 8, k + 12]
    }
}

/// The band (of the given kind) that state index `i` belongs to.
pub open spec fn band_of(diagonal: bool, i: int) -> int {
    if diagonal {
        (i % 4 + 4 - i / 4) % 4
    } else {
        i % 4
    }
}

/// The four words of band `k`, in band order.
pub open spec fn gather(s: Seq<u32>, diagonal: bool, k: int) -> Seq<u32> {
    Seq::new(4, |j: int| s[band(diagonal, k)[j]])
}

/// The state with the four words of `lane` written to band `k`.
pub open spec fn write_band(s: Seq<u32>, diagonal: bool, k: int, lane: Seq<u32>) -> Seq<u32> {
    let b = band(diagonal, k);
    s.update(b[0], lane[0]).update(b[1], lane[1]).update(b[2], lane[2]).update(b[3], lane[3])
}

/// The state after the quarter-round is applied in place to band `k`.
pub open spec fn apply_band(s: Seq<u32>, diagonal: bool, k: int) -> Seq<u32> {
    write_band(s, diagonal, k, quarter_round_seq(gather(s, diagonal, k)))
}

/// A column round (`diagonal == false`) or a diagonal round: the quarter-round
/// applied to bands 0, 1, 2 and 3, one after the other.
pub open spec fn round_spec(s: Seq<u32>, diagonal: bool) -> Seq<u32> {
    apply_band(apply_band(apply_band(apply_band(s, diagonal, 0), diagonal, 1), diagonal, 2), diagonal, 3)
}

/// The same round computed band by band from the input state alone: each
/// word comes from the quarter-round of the band it belongs to.
pub open spec fn round_parallel(s: Seq<u32>, diagonal: bool) -> Seq<u32> {
    Seq::new(16, |i: int| quarter_round_seq(gather(s, diagonal, band_of(diagonal, i)))[i / 4])
}

/// The four quarter-rounds of a column or diagonal round touch disjoint words,
/// so computing them independently from the input state gives the same state
/// as applying them one after another.
pub proof fn lemma_parallel_round_matches_sequential(s: Seq<u32>, diagonal: bool)
    requires
        s.len() == 16,
    ensures
        round_parallel(s, diagonal) == round_spec(s, diagonal),
{
    let s1 = apply_band(s, diagonal, 0);
    let s2 = apply_band(s1, diagonal, 1);
    let s3 = apply_band(s2, diagonal, 2);
    assert(gather(s1, diagonal, 1) =~= gather(s, diagonal, 1));
    assert(gather(s2, diagonal, 2) =~= gather(s, diagonal, 2));
    assert(gather(s3, diagonal, 3) =~= gather(s, diagonal, 3));
    assert(round_parallel(s, diagonal) =~= round_spec(s, diagonal));
}

/// Quarter-rounds on two different bands of one round touch disjoint words,
/// so applying them in either order gives the same state.
pub proof fn lemma_bands_commute(s: Seq<u32>, diagonal: bool, g: int, h: int)
    requires
        s.len() == 16,
        0 <= g < 4,
        0 <= h < 4,
        g != h,
    ensures
        apply_band(apply_band(s, diagonal, g), diagonal, h) == apply_band(
            apply_band(s, diagonal, h),
            diagonal,
            g,
        ),
{
    let sg = apply_band(s, diagonal, g);
    let sh = apply_band(s, diagonal, h);
    assert(gather(sg, diagonal, h) =~= gather(s, diagonal, h));
    assert(gather(sh, diagonal, g) =~= gather(s, diagonal, g));
    assert(apply_band(sg, diagonal, h) =~= apply_band(sh, diagonal, g));
}

/// Writing the four independently computed lanes back to their bands gives
/// the round computed band by band.
proof fn lemma_write_bands(s: Seq<u32>, diagonal: bool, lanes: Seq<Seq<u32>>)
    requires
        s.len() == 16,
        lanes.len() == 4,
        forall|k: int| 0 <= k < 4 ==> #[trigger] lanes[k] == quarter_round_seq(gather(s, diagonal, k)),
    ensures
        write_band(
            write_band(write_band(write_band(s, diagonal, 0, lanes[0]), diagonal, 1, lanes[1]), diagonal, 2, lanes[2]),
            diagonal,
            3,
            lanes[3],
        ) == round_parallel(s, diagonal),
{
    let l0 = lanes[0];
    let l1 = lanes[1];
    let l2 = lanes[2];
    let l3 = lanes[3];
    assert(write_band(
        write_band(write_band(write_band(s, diagonal, 0, l0), diagonal, 1, l1), diagonal, 2, l2),
        diagonal,
        3,
        l3,
    ) =~= round_parallel(s, diagonal));
}

/// Returns the state indices of band `k`.
fn band_indices(diagonal: bool, k: usize) -> (r: [usize; 4])
    requires
        k < 4,
    ensures
        forall|j: int| 0 <= j < 4 ==> r[j] as int == #[trigger] band(diagonal, k as int)[j],
        forall|j: int| 0 <= j < 4 ==> #[trigger] r[j] < 16,
{
    if diagonal {
        [k, 4 + (k + 1) % 4, 8 + (k + 2) % 4, 12 + (k + 3) % 4]
    } else {
        [k, k + 4, k + 8, k + 12]
    }
}

/// Copies each band of the state into a lane of its own.
fn gather_bands(s: &[u32; 16], diagonal: bool) -> (lanes: [[u32; 4]; 4])
    ensures
        forall|k: int| 0 <= k < 4 ==> #[trigger] lanes[k]@ == gather(s@, diagonal, k),
{
    let mut lanes: [[u32; 4]; 4] = [[0u32; 4]; 4];
    for k in 0..4
        invariant
            forall|m: int| 0 <= m < k ==> #[trigger] lanes[m]@ == gather(s@, diagonal, m),
    {
        let idx = band_indices(diagonal, k);
        let lane: [u32; 4] = [s[idx[0]], s[idx[1]], s[idx[2]], s[idx[3]]];
        assert(lane@ =~= gather(s@, diagonal, k as int));
        lanes[k] = lane;
    }
    lanes
}

/// Relies on rayon's `par_iter_mut` over an array and `ParallelIterator::for_each`:
/// the closure is called exactly once on each element, through a mutable
/// reference to that element alone, and `for_each` returns after every call
/// has finished.
#[verifier::external_body]
fn quarter_rounds_parallel(lanes: &mut [[u32; 4]; 4])
    ensures
        forall|k: int| 0 <= k < 4 ==> #[trigger] final(lanes)[k]@ == quarter_round_seq(old(lanes)[k]@),
{
    lanes.par_iter_mut().for_each(|lane| quarter_round(lane));
}

/// Writes the words of a lane back to the state indices of its band.
pub fn set_band(s: &mut [u32; 16], lane: &[u32; 4], idx: &[usize; 4])
    requires
        forall|j: int| 0 <= j < 4 ==> #[trigger] idx[j] < 16,
    ensures
        final(s)@ == old(s)@.update(idx[0] as int, lane[0]).update(idx[1] as int, lane[1]).update(
            idx[2] as int,
            lane[2],
        ).update(idx[3] as int, lane[3]),
{
    s[idx[0]] = lane[0];
    s[idx[1]] = lane[1];
    s[idx[2]] = lane[2];
    s[idx[3]] = lane[3];
}

/// Applies a column round (`diagonal == false`) or a diagonal round in place,
/// running its four quarter-rounds in parallel on copies of the bands.
pub fn round(s: &mut [u32; 16], diagonal: bool)
    ensures
        final(s)@ == round_spec(old(s)@, diagonal),
{
    let mut lanes = gather_bands(s, diagonal);
    quarter_rounds_parallel(&mut lanes);
    let i0 = band_indices(diagonal, 0);
    let i1 = band_indices(diagonal, 1);
    let i2 = band_indices(diagonal, 2);
    let i3 = band_indices(diagonal, 3);
    let ghost s0 = s@;
    set_band(s, &lanes[0], &i0);
    assert(s@ == write_band(s0, diagonal, 0, lanes[0]@));
    let ghost s1 = s@;
    set_band(s, &lanes[1], &i1);
    assert(s@ == write_band(s1, diagonal, 1, lanes[1]@));
    let ghost s2 = s@;
    set_band(s, &lanes[2], &i2);
    assert(s@ == write_band(s2, diagonal, 2, lanes[2]@));
    let ghost s3 = s@;
    set_band(s, &lanes[3], &i3);
    assert(s@ == write_band(s3, diagonal, 3, lanes[3]@));
    proof {
        let ls = seq![lanes[0]@, lanes[1]@, lanes[2]@, lanes[3]@];
        assert(forall|k: int| 0 <= k < 4 ==> #[trigger] ls[k] == lanes[k]@);
        lemma_write_bands(s0, diagonal, ls);
        lemma_parallel_round_matches_sequential(s0, diagonal);
    }
}


/// A double round: a column round followed by a diagonal round.
pub open spec fn double_round_spec(s: Seq<u32>) -> Seq<u32> {
    round_spec(round_spec(s, false), true)
}

/// `n` double rounds applied one after another.
pub open spec fn double_rounds(s: Seq<u32>, n: nat) -> Seq<u32>
    decreases n,
{
    if n == 0 {
        s
    } else {
        double_round_spec(double_rounds(s, (n - 1) as nat))
    }
}

/// The block function: twenty rounds (ten double rounds) on a copy of the
/// state, then each word added, modulo 2^32, to the word of the input.
pub open spec fn block_spec(s: Seq<u32>) -> Seq<u32> {
    let w = double_rounds(s, 10);
    Seq::new(16, |i: int| w[i].wrapping_add(s[i]))
}

/// Applies a double round in place.
pub fn double_round(s: &mut [u32; 16])
    ensures
        final(s)@ == double_round_spec(old(s)@),
{
    round(s, false);
    round(s, true);
}

/// Computes the sixteen output words of the block function.
pub fn chacha20_block(input: &[u32; 16]) -> (out: [u32; 16])
    ensures
        out@ == block_spec(input@),
{
    let mut w: [u32; 16] = *input;
    for i in 0..10
        invariant
            w@ == double_rounds(input@, i as nat),
    {
        double_round(&mut w);
    }
    let mut out: [u32; 16] = [0u32; 16];
    for i in 0..16
        invariant
            w@ == double_rounds(input@, 10),
            forall|m: int| 0 <= m < i ==> #[trigger] out[m] == w[m].wrapping_add(input[m]),
    {
        out[i] = w[i].wrapping_add(input[i]);
    }
    assert(out@ =~= block_spec(input@));
    out
}

} // verus!
