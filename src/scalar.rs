//! The scalar block engine: one byte at a time, without reduction.

use crate::model::{lemma_single_byte, fold_s1, fold_s2, lemma_fold_concat, lemma_fold_fits, BASE, NMAX};
use vstd::prelude::*;

verus! {

/// Folds every byte of `buf` into `(s1, s2)`: `s1 += byte; s2 += s1`.
/// The sums are left unreduced; callers reduce them after at most `NMAX` bytes.
/// Returns the number of bytes consumed, which is all of them.
pub fn do_blocks_scalar(s1: &mut u32, s2: &mut u32, buf: &[u8]) -> (consumed: usize)
    requires
        *old(s1) < BASE,
        *old(s2) < BASE,
        buf@.len() <= NMAX,
    ensures
        consumed == buf@.len(),
        *final(s1) == fold_s1(*old(s1) as int, buf@),
        *final(s2) == fold_s2(*old(s1) as int, *old(s2) as int, buf@),
{
    let ghost a = *s1 as int;
    let ghost b = *s2 as int;
    let mut i: usize = 0;
    while i < buf.len()
        invariant
            i <= buf@.len(),
            buf@.len() <= NMAX,
            0 <= a < BASE,
            0 <= b < BASE,
            *s1 == fold_s1(a, buf@.subrange(0, i as int)),
            *s2 == fold_s2(a, b, buf@.subrange(0, i as int)),
        decreases buf@.len() - i,
    {
        let ghost done = buf@.subrange(0, i as int);
        let ghost next = buf@.subrange(0, i + 1);
        proof {
            lemma_fold_concat(a, b, done, seq![buf@[i as int]]);
            assert(done + seq![buf@[i as int]] =~= next);
            lemma_single_byte(fold_s1(a, done), fold_s2(a, b, done), buf@[i as int]);
            lemma_fold_fits(a, b, next);
        }
        *s1 = *s1 + buf[i] as u32;
        *s2 = *s2 + *s1;
        i = i + 1;
    }
    proof {
        assert(buf@.subrange(0, i as int) =~= buf@);
    }
    i
}

} // verus!
