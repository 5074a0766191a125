//! The lane-parallel block engine: 32-byte blocks, each loaded as two
//! 16-byte vectors, with the byte sums and the position-weighted sums
//! gathered in 32-bit lanes and reduced once per group of blocks.

use crate::lanes::{
    add_epi32, hsum_epi32, lanes_total, loadu_si128, madd_epi16_ones, maddubs_epi16, sad_epu8,
    slli_epi32_5,
};
use crate::model::{
    byte_sum, fold_s1, fold_s2, lemma_byte_sum_bound, lemma_byte_sum_concat, lemma_fold_fits,
    lemma_prefix_sum_total_bound, lemma_prefix_sum_total_concat,
    lemma_prefix_sum_total_weighted, lemma_rolled_concat, lemma_weighted_agree,
    lemma_weighted_split, prefix_sum_total, rolled, weighted_upto, BASE, NMAX,
};
use vstd::prelude::*;

verus! {

/// Bytes per block: two 16-byte vectors.
pub const BLOCK_SIZE: usize = 32;

/// Blocks per group: the most whole blocks within `NMAX` bytes.
pub const GROUP_BLOCKS: usize = 173;

/// The weights of the first half of a block: `32, 31, ..., 17`.
pub open spec fn first_taps() -> Seq<u8> {
    seq![32, 31, 30, 29, 28, 27, 26, 25, 24, 23, 22, 21, 20, 19, 18, 17]
}

/// The weights of the second half of a block: `16, 15, ..., 1`.
pub open spec fn second_taps() -> Seq<u8> {
    seq![16, 15, 14, 13, 12, 11, 10, 9, 8, 7, 6, 5, 4, 3, 2, 1]
}

/// The weighted lane sums of one half: lane sums of `h[k] * t[k]` where
/// the weights count down from `w`.
proof fn lemma_half_taps(h: [u8; 16], t: [u8; 16], w: int, m: [u16; 8], r: [u32; 4])
    requires
        forall|k: int| 0 <= k < 16 ==> t[k] == w - k,
        forall|j: int| 0 <= j < 8 ==> m[j] == h[2 * j] * t[2 * j] + h[2 * j + 1] * t[2 * j + 1],
        forall|j: int| 0 <= j < 4 ==> r[j] == m[2 * j] + m[2 * j + 1],
    ensures
        lanes_total(r) == weighted_upto(h@, w, 16),
{
    assert forall|k: int| 0 <= k < 16 implies h[k] * t[k] == (w - k) * h@[k] by {
        let x = h[k] as int;
        let y = t[k] as int;
        assert(x * y == (w - k) * x) by (nonlinear_arith)
            requires
                y == w - k,
        ;
    }
    reveal_with_fuel(weighted_upto, 17);
    assert(m[0] == h[0] * t[0] + h[1] * t[1]);
    assert(m[1] == h[2] * t[2] + h[3] * t[3]);
    assert(m[2] == h[4] * t[4] + h[5] * t[5]);
    assert(m[3] == h[6] * t[6] + h[7] * t[7]);
    assert(m[4] == h[8] * t[8] + h[9] * t[9]);
    assert(m[5] == h[10] * t[10] + h[11] * t[11]);
    assert(m[6] == h[12] * t[12] + h[13] * t[13]);
    assert(m[7] == h[14] * t[14] + h[15] * t[15]);
    assert(r[0] == m[0] + m[1]);
    assert(r[1] == m[2] + m[3]);
    assert(r[2] == m[4] + m[5]);
    assert(r[3] == m[6] + m[7]);
}

/// The weighted lane sums of a block's two halves add up to what the block
/// adds to `s2` beyond the multiples of the incoming `s1`.
proof fn lemma_block_taps(
    c: Seq<u8>,
    h1: [u8; 16],
    h2: [u8; 16],
    t1: [u8; 16],
    t2: [u8; 16],
    m1: [u16; 8],
    m2: [u16; 8],
    r1: [u32; 4],
    r2: [u32; 4],
)
    requires
        c.len() == 32,
        h1@ == c.subrange(0, 16),
        h2@ == c.subrange(16, 32),
        t1@ == first_taps(),
        t2@ == second_taps(),
        forall|j: int| 0 <= j < 8 ==> m1[j] == h1[2 * j] * t1[2 * j] + h1[2 * j + 1] * t1[2 * j + 1],
        forall|j: int| 0 <= j < 8 ==> m2[j] == h2[2 * j] * t2[2 * j] + h2[2 * j + 1] * t2[2 * j + 1],
        forall|j: int| 0 <= j < 4 ==> r1[j] == m1[2 * j] + m1[2 * j + 1],
        forall|j: int| 0 <= j < 4 ==> r2[j] == m2[2 * j] + m2[2 * j + 1],
    ensures
        lanes_total(r1) + lanes_total(r2) == prefix_sum_total(c),
{
    assert(forall|k: int| 0 <= k < 16 ==> t1[k] == 32 - k);
    assert(forall|k: int| 0 <= k < 16 ==> t2[k] == 16 - k);
    lemma_half_taps(h1, t1, 32, m1, r1);
    lemma_half_taps(h2, t2, 16, m2, r2);
    lemma_prefix_sum_total_weighted(c, 32);
    assert(c.subrange(0, 32) =~= c);
    lemma_weighted_split(c, 32, 16, 16);
    lemma_weighted_agree(c, h1@, 32, 16);
}

/// What one more block does to the byte sums of a prefix of a group.
proof fn lemma_group_step(p: Seq<u8>, c: Seq<u8>, rest: Seq<u8>)
    requires
        c.len() == 32,
    ensures
        byte_sum(p + c) == byte_sum(p) + byte_sum(c),
        byte_sum(c) == byte_sum(c.subrange(0, 16)) + byte_sum(c.subrange(16, 32)),
        prefix_sum_total(p + c) == prefix_sum_total(p) + 32 * byte_sum(p) + prefix_sum_total(c),
        prefix_sum_total(p + c) <= prefix_sum_total(p + c + rest),
        0 <= byte_sum(p),
        0 <= byte_sum(c),
        0 <= prefix_sum_total(c),
        byte_sum(p + c) <= 255 * (p.len() + 32),
{
    let p2 = p + c;
    lemma_byte_sum_concat(p, c);
    lemma_prefix_sum_total_concat(p, c);
    lemma_byte_sum_concat(c.subrange(0, 16), c.subrange(16, 32));
    assert(c.subrange(0, 16) + c.subrange(16, 32) =~= c);
    lemma_prefix_sum_total_concat(p2, rest);
    lemma_byte_sum_bound(p2);
    lemma_byte_sum_bound(c);
    lemma_byte_sum_bound(p);
    lemma_prefix_sum_total_bound(c);
    lemma_prefix_sum_total_bound(rest);
    let sp2 = byte_sum(p2);
    let sp = byte_sum(p);
    assert(rest.len() * sp2 >= 0) by (nonlinear_arith)
        requires
            sp2 >= 0,
    ;
    assert(c.len() * sp == 32 * sp) by (nonlinear_arith)
        requires
            c.len() == 32,
    ;
}

/// Folds `n` whole blocks of `buf` at `start` into `(s1, s2)` with lane
/// arithmetic, returning the unreduced sums.
fn fold_group(s1: u32, s2: u32, buf: &[u8], start: usize, n: usize) -> (r: (u32, u32))
    requires
        s1 < BASE,
        s2 < BASE,
        1 <= n <= GROUP_BLOCKS,
        start + BLOCK_SIZE * n <= buf@.len(),
    ensures
        r.0 == fold_s1(s1 as int, buf@.subrange(start as int, start + BLOCK_SIZE * n)),
        r.1 == fold_s2(s1 as int, s2 as int, buf@.subrange(start as int, start + BLOCK_SIZE * n)),
{
    let tap1: [u8; 16] = [32, 31, 30, 29, 28, 27, 26, 25, 24, 23, 22, 21, 20, 19, 18, 17];
    let tap2: [u8; 16] = [16, 15, 14, 13, 12, 11, 10, 9, 8, 7, 6, 5, 4, 3, 2, 1];
    assert(tap1@ =~= first_taps());
    assert(tap2@ =~= second_taps());
    let ghost group = buf@.subrange(start as int, start + BLOCK_SIZE * n);
    let ghost seed = s1 as int * n as int;
    proof {
        lemma_fold_fits(s1 as int, s2 as int, group);
        assert(group.len() * (s1 as int) == 32 * seed) by (nonlinear_arith)
            requires
                group.len() == 32 * n,
                seed == s1 as int * n as int,
        ;
        assert(seed <= 65520 * 173) by (nonlinear_arith)
            requires
                seed == s1 as int * n as int,
                s1 < 65521,
                n <= 173,
        ;
        assert(buf@.subrange(start as int, start as int) =~= Seq::<u8>::empty());
    }
    let mut v_ps: [u32; 4] = [s1 * n as u32, 0, 0, 0];
    let mut v_s2: [u32; 4] = [s2, 0, 0, 0];
    let mut v_s1: [u32; 4] = [0, 0, 0, 0];
    let len = buf.len();
    let mut t: usize = 0;
    while t < n
        invariant
            t <= n <= GROUP_BLOCKS,
            start + BLOCK_SIZE * n <= buf@.len(),
            len == buf@.len(),
            s1 < BASE,
            s2 < BASE,
            tap1@ == first_taps(),
            tap2@ == second_taps(),
            group == buf@.subrange(start as int, start + BLOCK_SIZE * n),
            seed == s1 as int * n as int,
            fold_s2(s1 as int, s2 as int, group) == s2 + 32 * seed + prefix_sum_total(group),
            fold_s2(s1 as int, s2 as int, group) <= u32::MAX,
            lanes_total(v_s1) == byte_sum(buf@.subrange(start as int, start + BLOCK_SIZE * t)),
            lanes_total(v_ps) >= seed,
            lanes_total(v_s2) >= s2,
            32 * (lanes_total(v_ps) - seed) + (lanes_total(v_s2) - s2) == prefix_sum_total(
                buf@.subrange(start as int, start + BLOCK_SIZE * t),
            ),
        decreases n - t,
    {
        assert(BLOCK_SIZE * t + BLOCK_SIZE <= BLOCK_SIZE * n) by (nonlinear_arith)
            requires
                t < n,
        ;
        let at = start + BLOCK_SIZE * t;
        let ghost p = buf@.subrange(start as int, at as int);
        let ghost c = buf@.subrange(at as int, at + 32);
        let ghost p2 = buf@.subrange(start as int, at + 32);
        let ghost rest = buf@.subrange(at + 32, start + BLOCK_SIZE * n);

        let bytes1 = loadu_si128(buf, at);
        let bytes2 = loadu_si128(buf, at + 16);
        let sad1 = sad_epu8(&bytes1);
        let m1 = maddubs_epi16(&bytes1, &tap1);
        let mad1 = madd_epi16_ones(&m1);
        let sad2 = sad_epu8(&bytes2);
        let m2 = maddubs_epi16(&bytes2, &tap2);
        let mad2 = madd_epi16_ones(&m2);
        proof {
            assert(bytes1@ =~= c.subrange(0, 16));
            assert(bytes2@ =~= c.subrange(16, 32));
            lemma_block_taps(c, bytes1, bytes2, tap1, tap2, m1, m2, mad1, mad2);
            assert(p + c =~= p2);
            assert(p2 + rest =~= group);
            lemma_group_step(p, c, rest);
        }
        v_ps = add_epi32(v_ps, v_s1);
        v_s1 = add_epi32(v_s1, sad1);
        v_s2 = add_epi32(v_s2, mad1);
        v_s1 = add_epi32(v_s1, sad2);
        v_s2 = add_epi32(v_s2, mad2);
        t = t + 1;
    }
    let ghost all = buf@.subrange(start as int, start + BLOCK_SIZE * t);
    assert(all == group);
    proof {
        lemma_byte_sum_bound(group);
    }
    v_s2 = add_epi32(v_s2, slli_epi32_5(v_ps));
    let sum1 = hsum_epi32(v_s1);
    let sum2 = hsum_epi32(v_s2);
    (s1 + sum1, sum2)
}

/// The lane-parallel block function. Folds the whole 32-byte blocks of
/// `buf` into `(s1, s2)`, in groups of at most `GROUP_BLOCKS` blocks, and
/// reduces both sums modulo `BASE` after each group. The trailing bytes that
/// do not fill a block are left for the caller; the result is the number of
/// bytes consumed.
pub fn do_blocks_ssse3(s1: &mut u32, s2: &mut u32, buf: &[u8]) -> (consumed: usize)
    requires
        *old(s1) < BASE,
        *old(s2) < BASE,
    ensures
        consumed == buf@.len() / 32 * 32,
        *final(s1) < BASE,
        *final(s2) < BASE,
        (*final(s1) as int, *final(s2) as int) == rolled(
            *old(s1) as int,
            *old(s2) as int,
            buf@.subrange(0, consumed as int),
        ),
{
    let ghost a = *s1 as int;
    let ghost b = *s2 as int;
    let mut blocks: usize = buf.len() / BLOCK_SIZE;
    let next_pos = blocks * BLOCK_SIZE;
    let mut pos: usize = 0;
    proof {
        assert(buf@.subrange(0, 0) =~= Seq::<u8>::empty());
        vstd::arithmetic::div_mod::lemma_small_mod(a as nat, BASE as nat);
        vstd::arithmetic::div_mod::lemma_small_mod(b as nat, BASE as nat);
    }
    while blocks != 0
        invariant
            pos + BLOCK_SIZE * blocks == next_pos,
            next_pos == buf@.len() / 32 * 32,
            next_pos <= buf@.len(),
            *s1 < BASE,
            *s2 < BASE,
            (*s1 as int, *s2 as int) == rolled(a, b, buf@.subrange(0, pos as int)),
        decreases blocks,
    {
        let mut n: usize = NMAX / BLOCK_SIZE;
        if n > blocks {
            n = blocks;
        }
        blocks = blocks - n;
        let (g1, g2) = fold_group(*s1, *s2, buf, pos, n);
        proof {
            let done = buf@.subrange(0, pos as int);
            let group = buf@.subrange(pos as int, pos + BLOCK_SIZE * n);
            lemma_rolled_concat(a, b, done, group);
            assert(done + group =~= buf@.subrange(0, pos + BLOCK_SIZE * n));
        }
        *s1 = g1 % BASE;
        *s2 = g2 % BASE;
        pos = pos + BLOCK_SIZE * n;
    }
    next_pos
}

} // verus!
