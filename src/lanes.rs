//! 128-bit vector operations modelled on plain integer lanes: a vector is
//! read as 16 bytes, 8 unsigned 16-bit lanes or 4 unsigned 32-bit lanes.
//! Each operation computes, lane by lane, what the matching SSE/SSSE3
//! instruction computes on the inputs that the block engine gives it.

use crate::model::{byte_sum, lemma_byte_sum_concat, lemma_single_byte};
use vstd::prelude::*;

verus! {

/// The sum of the four 32-bit lanes.
pub open spec fn lanes_total(v: [u32; 4]) -> int {
    v[0] + v[1] + v[2] + v[3]
}

/// 2^32: 32-bit lanes wrap modulo this.
pub open spec fn lane_modulus() -> int {
    0x1_0000_0000
}

/// Unaligned load of the 16 bytes of `buf` at `at` (`_mm_loadu_si128`).
pub fn loadu_si128(buf: &[u8], at: usize) -> (r: [u8; 16])
    requires
        at + 16 <= buf@.len(),
    ensures
        r@ == buf@.subrange(at as int, at + 16),
{
    let mut r = [0u8; 16];
    let len = buf.len();
    let mut i: usize = 0;
    while i < 16
        invariant
            i <= 16,
            len == buf@.len(),
            at + 16 <= buf@.len(),
            forall|k: int| 0 <= k < i ==> r@[k] == buf@[at + k],
        decreases 16 - i,
    {
        r[i] = buf[at + i];
        i = i + 1;
    }
    assert(r@ =~= buf@.subrange(at as int, at + 16));
    r
}

/// The sum of `v[lo..hi]`.
fn sum_bytes_16(v: &[u8; 16], lo: usize, hi: usize) -> (r: u32)
    requires
        lo <= hi <= 16,
    ensures
        r == byte_sum(v@.subrange(lo as int, hi as int)),
{
    let mut r: u32 = 0;
    let mut i: usize = lo;
    while i < hi
        invariant
            lo <= i <= hi <= 16,
            r == byte_sum(v@.subrange(lo as int, i as int)),
            r <= 255 * (i - lo),
        decreases hi - i,
    {
        proof {
            let done = v@.subrange(lo as int, i as int);
            lemma_byte_sum_concat(done, seq![v@[i as int]]);
            lemma_single_byte(0, 0, v@[i as int]);
            assert(done + seq![v@[i as int]] =~= v@.subrange(lo as int, i + 1));
        }
        r = r + v[i] as u32;
        i = i + 1;
    }
    r
}

/// Sums of absolute differences against zero (`_mm_sad_epu8(v, 0)`): the
/// sum of the low eight bytes lands in lane 0, that of the high eight bytes
/// in lane 2.
pub fn sad_epu8(v: &[u8; 16]) -> (r: [u32; 4])
    ensures
        r[0] == byte_sum(v@.subrange(0, 8)),
        r[1] == 0,
        r[2] == byte_sum(v@.subrange(8, 16)),
        r[3] == 0,
        lanes_total(r) == byte_sum(v@),
{
    let lo = sum_bytes_16(v, 0, 8);
    let hi = sum_bytes_16(v, 8, 16);
    proof {
        lemma_byte_sum_concat(v@.subrange(0, 8), v@.subrange(8, 16));
        assert(v@.subrange(0, 8) + v@.subrange(8, 16) =~= v@);
    }
    [lo, 0, hi, 0]
}

/// Multiplies unsigned bytes by byte weights and adds adjacent pairs into
/// 16-bit lanes (`_mm_maddubs_epi16`). The weights are at most 64, so no
/// lane reaches the saturation bound of the instruction.
pub fn maddubs_epi16(v: &[u8; 16], taps: &[u8; 16]) -> (r: [u16; 8])
    requires
        forall|k: int| 0 <= k < 16 ==> taps[k] <= 64,
    ensures
        forall|j: int|
            0 <= j < 8 ==> r[j] == v[2 * j] * taps[2 * j] + v[2 * j + 1] * taps[2 * j + 1],
        forall|j: int| 0 <= j < 8 ==> r[j] <= 2 * 255 * 64,
{
    let mut r = [0u16; 8];
    let mut j: usize = 0;
    while j < 8
        invariant
            j <= 8,
            forall|k: int| 0 <= k < 16 ==> taps[k] <= 64,
            forall|i: int|
                0 <= i < j ==> r[i] == v[2 * i] * taps[2 * i] + v[2 * i + 1] * taps[2 * i + 1],
            forall|i: int| 0 <= i < j ==> r[i] <= 2 * 255 * 64,
        decreases 8 - j,
    {
        let a = v[2 * j] as u16;
        let b = v[2 * j + 1] as u16;
        let ta = taps[2 * j] as u16;
        let tb = taps[2 * j + 1] as u16;
        assert(a * ta <= 255 * 64) by (nonlinear_arith)
            requires
                a <= 255,
                ta <= 64,
        ;
        assert(b * tb <= 255 * 64) by (nonlinear_arith)
            requires
                b <= 255,
                tb <= 64,
        ;
        r[j] = a * ta + b * tb;
        j = j + 1;
    }
    r
}

/// Multiplies 16-bit lanes by one and adds adjacent pairs into 32-bit lanes
/// (`_mm_madd_epi16(m, ones)`).
pub fn madd_epi16_ones(m: &[u16; 8]) -> (r: [u32; 4])
    requires
        forall|j: int| 0 <= j < 8 ==> m[j] < 0x8000,
    ensures
        forall|j: int| 0 <= j < 4 ==> r[j] == m[2 * j] + m[2 * j + 1],
{
    [
        m[0] as u32 + m[1] as u32,
        m[2] as u32 + m[3] as u32,
        m[4] as u32 + m[5] as u32,
        m[6] as u32 + m[7] as u32,
    ]
}

/// Lane-wise wrapping addition of 32-bit lanes (`_mm_add_epi32`).
pub fn add_epi32(a: [u32; 4], b: [u32; 4]) -> (r: [u32; 4])
    ensures
        forall|i: int| 0 <= i < 4 ==> r[i] == (a[i] + b[i]) % lane_modulus(),
        lanes_total(a) + lanes_total(b) < lane_modulus() ==> lanes_total(r) == lanes_total(a)
            + lanes_total(b),
{
    [
        a[0].wrapping_add(b[0]),
        a[1].wrapping_add(b[1]),
        a[2].wrapping_add(b[2]),
        a[3].wrapping_add(b[3]),
    ]
}

/// Shifts each 32-bit lane left by 5 bits (`_mm_slli_epi32(v, 5)`), that is,
/// multiplies it by the block size 32.
pub fn slli_epi32_5(v: [u32; 4]) -> (r: [u32; 4])
    requires
        32 * lanes_total(v) < lane_modulus(),
    ensures
        forall|i: int| 0 <= i < 4 ==> r[i] == 32 * v[i],
        lanes_total(r) == 32 * lanes_total(v),
{
    proof {
        lemma_shl5(v[0]);
        lemma_shl5(v[1]);
        lemma_shl5(v[2]);
        lemma_shl5(v[3]);
    }
    [v[0] << 5, v[1] << 5, v[2] << 5, v[3] << 5]
}

/// A shift by 5 bits is a multiplication by 32 when nothing is shifted out.
proof fn lemma_shl5(x: u32)
    requires
        x < 0x800_0000,
    ensures
        x << 5 == 32 * x,
{
    assert(x < 0x800_0000 ==> x << 5 == 32 * x) by (bit_vector);
}

/// Swaps adjacent lanes: `A B C D -> B A D C` (`_mm_shuffle_epi32` with `2 << 6 | 3 << 4 | 1`).
pub fn shuffle_epi32_2301(v: [u32; 4]) -> (r: [u32; 4])
    ensures
        r@ == seq![v[1], v[0], v[3], v[2]],
{
    [v[1], v[0], v[3], v[2]]
}

/// Swaps the halves: `A B C D -> C D A B` (`_mm_shuffle_epi32` with `1 << 6 | 3 << 2 | 2`).
pub fn shuffle_epi32_1032(v: [u32; 4]) -> (r: [u32; 4])
    ensures
        r@ == seq![v[2], v[3], v[0], v[1]],
{
    [v[2], v[3], v[0], v[1]]
}

/// The horizontal sum of the lanes, by two shuffle-and-add rounds and a read
/// of lane 0 (`_mm_cvtsi128_si32`).
pub fn hsum_epi32(v: [u32; 4]) -> (r: u32)
    ensures
        r == lanes_total(v) % lane_modulus(),
{
    let v = add_epi32(v, shuffle_epi32_2301(v));
    let v = add_epi32(v, shuffle_epi32_1032(v));
    proof {
        let m = lane_modulus();
        vstd::arithmetic::div_mod::lemma_add_mod_noop(v[0] as int, v[2] as int, m);
    }
    v[0]
}

} // verus!
