//! The mathematical model of Adler-32: the two running sums as integers,
//! before and after reduction modulo `BASE`.

use vstd::arithmetic::div_mod::{lemma_add_mod_noop, lemma_mul_mod_noop_right};
use vstd::prelude::*;

verus! {

/// The Adler-32 modulus: the largest prime below 2^16.
pub const BASE: u32 = 65521;

/// The largest `n` with `255 * n * (n + 1) / 2 + (n + 1) * (BASE - 1) <= 2^32 - 1`:
/// the most bytes that can be folded into reduced sums before `s2` could
/// leave the 32-bit range, even when every byte is 255.
pub const NMAX: usize = 5552;

/// `NMAX` is the largest byte count whose worst case, reduced seeds and
/// all bytes 255, keeps `s2` within 32 bits.
pub proof fn lemma_nmax_is_largest()
    ensures
        255 * NMAX * (NMAX + 1) / 2 + (NMAX + 1) * (BASE - 1) <= u32::MAX,
        255 * (NMAX + 1) * (NMAX + 2) / 2 + (NMAX + 2) * (BASE - 1) > u32::MAX,
{
}

/// The plain sum of the bytes.
pub open spec fn byte_sum(bs: Seq<u8>) -> int
    decreases bs.len(),
{
    if bs.len() == 0 {
        0
    } else {
        byte_sum(bs.drop_last()) + bs.last()
    }
}

/// The sum of the running byte sums: `sum over k in 1..=len of byte_sum(bs[..k])`.
/// This is what the bytes add to `s2` beyond the multiples of the seed `s1`.
pub open spec fn prefix_sum_total(bs: Seq<u8>) -> int
    decreases bs.len(),
{
    if bs.len() == 0 {
        0
    } else {
        prefix_sum_total(bs.drop_last()) + byte_sum(bs)
    }
}

/// `s1` after folding `bs` into `a`, without reduction.
pub open spec fn fold_s1(a: int, bs: Seq<u8>) -> int {
    a + byte_sum(bs)
}

/// `s2` after folding `bs` into the pair `(a, b)`, without reduction:
/// every byte adds the new `s1` to `s2`.
pub open spec fn fold_s2(a: int, b: int, bs: Seq<u8>) -> int {
    b + bs.len() * a + prefix_sum_total(bs)
}

/// The reduced pair `(s1, s2)` after folding `bs` into `(a, b)`.
pub open spec fn rolled(a: int, b: int, bs: Seq<u8>) -> (int, int) {
    (fold_s1(a, bs) % (BASE as int), fold_s2(a, b, bs) % (BASE as int))
}

/// The reduced pair after folding each part in turn.
pub open spec fn rolled_parts(a: int, b: int, parts: Seq<Seq<u8>>) -> (int, int)
    decreases parts.len(),
{
    if parts.len() == 0 {
        (a, b)
    } else {
        let r = rolled(a, b, parts.first());
        rolled_parts(r.0, r.1, parts.drop_first())
    }
}

/// The checksum word: `s2` in the high half, `s1` in the low half.
pub open spec fn combined(s1: int, s2: int) -> int {
    s2 * 65536 + s1
}

/// Folding a single byte: `s1 += x; s2 += s1`.
pub proof fn lemma_single_byte(a: int, b: int, x: u8)
    ensures
        byte_sum(seq![x]) == x,
        prefix_sum_total(seq![x]) == x,
        fold_s1(a, seq![x]) == a + x,
        fold_s2(a, b, seq![x]) == b + a + x,
{
    assert(seq![x].len() * a == a) by (nonlinear_arith)
        requires
            seq![x].len() == 1,
    ;
    let one = seq![x];
    assert(one.drop_last() =~= Seq::<u8>::empty());
    assert(byte_sum(one.drop_last()) == 0);
    assert(prefix_sum_total(one.drop_last()) == 0);
}

/// Byte sums add up over a concatenation.
pub proof fn lemma_byte_sum_concat(x: Seq<u8>, y: Seq<u8>)
    ensures
        byte_sum(x + y) == byte_sum(x) + byte_sum(y),
    decreases y.len(),
{
    if y.len() == 0 {
        assert(x + y =~= x);
    } else {
        lemma_byte_sum_concat(x, y.drop_last());
        assert((x + y).drop_last() =~= x + y.drop_last());
    }
}

/// Each byte of `y` also adds the whole sum of `x` to `s2`.
pub proof fn lemma_prefix_sum_total_concat(x: Seq<u8>, y: Seq<u8>)
    ensures
        prefix_sum_total(x + y) == prefix_sum_total(x) + y.len() * byte_sum(x)
            + prefix_sum_total(y),
    decreases y.len(),
{
    if y.len() == 0 {
        assert(x + y =~= x);
    } else {
        lemma_prefix_sum_total_concat(x, y.drop_last());
        assert((x + y).drop_last() =~= x + y.drop_last());
        lemma_byte_sum_concat(x, y);
        assert(y.len() * byte_sum(x) == (y.len() - 1) * byte_sum(x) + byte_sum(x))
            by (nonlinear_arith);
    }
}

/// Each byte adds at most 255.
pub proof fn lemma_byte_sum_bound(bs: Seq<u8>)
    ensures
        0 <= byte_sum(bs) <= 255 * bs.len(),
    decreases bs.len(),
{
    if bs.len() > 0 {
        lemma_byte_sum_bound(bs.drop_last());
    }
}

/// With every byte at most 255, `2 * prefix_sum_total(bs) <= 255 * n * (n + 1)`.
pub proof fn lemma_prefix_sum_total_bound(bs: Seq<u8>)
    ensures
        0 <= 2 * prefix_sum_total(bs) <= 255 * bs.len() * (bs.len() + 1),
    decreases bs.len(),
{
    if bs.len() > 0 {
        let n = bs.len() as int;
        lemma_prefix_sum_total_bound(bs.drop_last());
        lemma_byte_sum_bound(bs);
        let p = prefix_sum_total(bs.drop_last());
        let t = byte_sum(bs);
        assert(2 * (p + t) <= 255 * n * (n + 1)) by (nonlinear_arith)
            requires
                2 * p <= 255 * (n - 1) * n,
                t <= 255 * n,
        ;
    }
}

/// With reduced seeds and at most `NMAX` bytes, the unreduced sums fit in 32 bits.
pub proof fn lemma_fold_fits(a: int, b: int, bs: Seq<u8>)
    requires
        0 <= a < BASE,
        0 <= b < BASE,
        bs.len() <= NMAX,
    ensures
        0 <= fold_s1(a, bs) <= a + 255 * bs.len(),
        0 <= fold_s2(a, b, bs) <= u32::MAX,
{
    let n = bs.len() as int;
    lemma_byte_sum_bound(bs);
    lemma_prefix_sum_total_bound(bs);
    let w = prefix_sum_total(bs);
    assert(2 * w <= 255 * 5552 * 5553) by (nonlinear_arith)
        requires
            0 <= n <= 5552,
            2 * w <= 255 * n * (n + 1),
    ;
    assert(0 <= n * a <= n * 65520) by (nonlinear_arith)
        requires
            0 <= n,
            0 <= a <= 65520,
    ;
}

/// `v[0] + ... + v[n - 1]`.
pub open spec fn sum_upto(v: Seq<u8>, n: int) -> int
    decreases n,
{
    if n <= 0 {
        0
    } else {
        sum_upto(v, n - 1) + v[n - 1]
    }
}

/// `sum over k < n of (w - k) * v[k]`: the bytes weighted by their distance
/// from position `w`.
pub open spec fn weighted_upto(v: Seq<u8>, w: int, n: int) -> int
    decreases n,
{
    if n <= 0 {
        0
    } else {
        weighted_upto(v, w, n - 1) + (w - (n - 1)) * v[n - 1]
    }
}

/// The recursive byte sum agrees with the indexed one.
pub proof fn lemma_byte_sum_upto(v: Seq<u8>, n: int)
    requires
        0 <= n <= v.len(),
    ensures
        byte_sum(v.subrange(0, n)) == sum_upto(v, n),
    decreases n,
{
    if n > 0 {
        lemma_byte_sum_upto(v, n - 1);
        assert(v.subrange(0, n).drop_last() =~= v.subrange(0, n - 1));
    }
}

/// Moving the weighting position by one adds the plain sum once more.
pub proof fn lemma_weighted_shift(v: Seq<u8>, w: int, n: int)
    requires
        0 <= n,
    ensures
        weighted_upto(v, w + 1, n) == weighted_upto(v, w, n) + sum_upto(v, n),
    decreases n,
{
    if n > 0 {
        lemma_weighted_shift(v, w, n - 1);
        let x = v[n - 1] as int;
        assert((w + 1 - (n - 1)) * x == (w - (n - 1)) * x + x) by (nonlinear_arith);
    }
}

/// Each byte adds to `s2` once for itself and once for every byte after it.
pub proof fn lemma_prefix_sum_total_weighted(v: Seq<u8>, n: int)
    requires
        0 <= n <= v.len(),
    ensures
        prefix_sum_total(v.subrange(0, n)) == weighted_upto(v, n, n),
    decreases n,
{
    if n > 0 {
        lemma_prefix_sum_total_weighted(v, n - 1);
        assert(v.subrange(0, n).drop_last() =~= v.subrange(0, n - 1));
        lemma_byte_sum_upto(v, n);
        lemma_weighted_shift(v, n - 1, n - 1);
        let x = v[n - 1] as int;
        assert((n - (n - 1)) * x == x) by (nonlinear_arith);
    }
}

/// A weighted sum only reads the first `n` bytes.
pub proof fn lemma_weighted_agree(v: Seq<u8>, u: Seq<u8>, w: int, n: int)
    requires
        0 <= n <= v.len(),
        n <= u.len(),
        forall|k: int| 0 <= k < n ==> v[k] == u[k],
    ensures
        weighted_upto(v, w, n) == weighted_upto(u, w, n),
    decreases n,
{
    if n > 0 {
        lemma_weighted_agree(v, u, w, n - 1);
    }
}

/// Splits a weighted sum at position `a`: the tail is weighted from `w - a`.
pub proof fn lemma_weighted_split(v: Seq<u8>, w: int, a: int, b: int)
    requires
        0 <= a,
        0 <= b,
        a + b <= v.len(),
    ensures
        weighted_upto(v, w, a + b) == weighted_upto(v, w, a) + weighted_upto(
            v.subrange(a, a + b),
            w - a,
            b,
        ),
    decreases b,
{
    if b > 0 {
        lemma_weighted_split(v, w, a, b - 1);
        lemma_weighted_agree(v.subrange(a, a + b), v.subrange(a, a + b - 1), w - a, b - 1);
        let x = v[a + b - 1] as int;
        assert((w - (a + b - 1)) * x == ((w - a) - (b - 1)) * x) by (nonlinear_arith);
    }
}

/// Folding `x + y` is folding `x` and then `y`.
pub proof fn lemma_fold_concat(a: int, b: int, x: Seq<u8>, y: Seq<u8>)
    ensures
        fold_s1(a, x + y) == fold_s1(fold_s1(a, x), y),
        fold_s2(a, b, x + y) == fold_s2(fold_s1(a, x), fold_s2(a, b, x), y),
{
    lemma_byte_sum_concat(x, y);
    lemma_prefix_sum_total_concat(x, y);
    assert((x + y).len() * a == x.len() * a + y.len() * a) by (nonlinear_arith)
        requires
            (x + y).len() == x.len() + y.len(),
    ;
    assert(y.len() * (a + byte_sum(x)) == y.len() * a + y.len() * byte_sum(x))
        by (nonlinear_arith);
}

/// The folded sums only depend on the seeds modulo `BASE`.
pub proof fn lemma_fold_congruent(a1: int, b1: int, a2: int, b2: int, bs: Seq<u8>)
    requires
        a1 % (BASE as int) == a2 % (BASE as int),
        b1 % (BASE as int) == b2 % (BASE as int),
    ensures
        fold_s1(a1, bs) % (BASE as int) == fold_s1(a2, bs) % (BASE as int),
        fold_s2(a1, b1, bs) % (BASE as int) == fold_s2(a2, b2, bs) % (BASE as int),
{
    let m = BASE as int;
    let n = bs.len() as int;
    let t = byte_sum(bs);
    let w = prefix_sum_total(bs);
    lemma_add_mod_noop(a1, t, m);
    lemma_add_mod_noop(a2, t, m);
    lemma_mul_mod_noop_right(n, a1, m);
    lemma_mul_mod_noop_right(n, a2, m);
    lemma_add_mod_noop(b1, n * a1, m);
    lemma_add_mod_noop(b2, n * a2, m);
    lemma_add_mod_noop(b1 + n * a1, w, m);
    lemma_add_mod_noop(b2 + n * a2, w, m);
}

/// Rolling `x` and then `y` gives the pair that rolling `x + y` gives.
pub proof fn lemma_rolled_concat(a: int, b: int, x: Seq<u8>, y: Seq<u8>)
    ensures
        ({
            let r = rolled(a, b, x);
            rolled(r.0, r.1, y)
        }) == rolled(a, b, x + y),
{
    let m = BASE as int;
    lemma_fold_concat(a, b, x, y);
    let (a1, b1) = (fold_s1(a, x), fold_s2(a, b, x));
    assert((a1 % m) % m == a1 % m) by {
        vstd::arithmetic::div_mod::lemma_mod_twice(a1, m);
    }
    assert((b1 % m) % m == b1 % m) by {
        vstd::arithmetic::div_mod::lemma_mod_twice(b1, m);
    }
    lemma_fold_congruent(a1 % m, b1 % m, a1, b1, y);
}

/// Folding no bytes into reduced sums leaves them as they are.
pub proof fn lemma_rolled_empty(a: int, b: int)
    requires
        0 <= a < BASE,
        0 <= b < BASE,
    ensures
        rolled(a, b, Seq::<u8>::empty()) == (a, b),
{
    vstd::arithmetic::div_mod::lemma_small_mod(a as nat, BASE as nat);
    vstd::arithmetic::div_mod::lemma_small_mod(b as nat, BASE as nat);
}

/// Streaming equals batch: folding the parts of a partition one after the
/// other gives the sums that folding their concatenation at once gives.
pub proof fn lemma_streaming_equals_batch(a: int, b: int, parts: Seq<Seq<u8>>)
    requires
        0 <= a < BASE,
        0 <= b < BASE,
    ensures
        rolled_parts(a, b, parts) == rolled(a, b, parts.flatten()),
    decreases parts.len(),
{
    if parts.len() == 0 {
        lemma_rolled_empty(a, b);
    } else {
        let r = rolled(a, b, parts.first());
        lemma_streaming_equals_batch(r.0, r.1, parts.drop_first());
        lemma_rolled_concat(a, b, parts.first(), parts.drop_first().flatten());
    }
}

} // verus!
