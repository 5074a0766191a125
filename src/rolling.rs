//! The checksum handle: the two sums, kept reduced, and the block engine
//! chosen for it.

use crate::model::{combined, fold_s1, fold_s2, lemma_rolled_concat, rolled, BASE, NMAX};
use crate::scalar::do_blocks_scalar;
use crate::vectorized::do_blocks_ssse3;
use vstd::arithmetic::div_mod::lemma_small_mod;
use vstd::prelude::*;

verus! {

/// A block function: folds a prefix of a byte slice into `(s1, s2)` and
/// says how many bytes it consumed.
#[derive(Clone, Copy, Debug, PartialEq, Eq, Structural)]
pub enum BlockEngine {
    /// One byte at a time; consumes everything, leaves the sums unreduced.
    Scalar,
    /// Whole 32-byte blocks in 32-bit lanes; leaves the sums reduced and the
    /// trailing bytes unconsumed.
    Ssse3,
}

impl BlockEngine {
    /// Runs this engine on at most `NMAX` bytes.
    pub fn do_blocks(&self, s1: &mut u32, s2: &mut u32, buf: &[u8]) -> (consumed: usize)
        requires
            *old(s1) < BASE,
            *old(s2) < BASE,
            buf@.len() <= NMAX,
        ensures
            consumed <= buf@.len(),
            (*final(s1) as int % BASE as int, *final(s2) as int % BASE as int) == rolled(
                *old(s1) as int,
                *old(s2) as int,
                buf@.subrange(0, consumed as int),
            ),
            consumed < buf@.len() ==> *final(s1) < BASE && *final(s2) < BASE,
            *self == BlockEngine::Scalar ==> consumed == buf@.len() && *final(s1) == fold_s1(
                *old(s1) as int,
                buf@,
            ) && *final(s2) == fold_s2(*old(s1) as int, *old(s2) as int, buf@),
            *self == BlockEngine::Ssse3 ==> consumed == buf@.len() / 32 * 32,
    {
        match self {
            BlockEngine::Scalar => {
                let r = do_blocks_scalar(s1, s2, buf);
                assert(buf@.subrange(0, r as int) =~= buf@);
                r
            },
            BlockEngine::Ssse3 => {
                let r = do_blocks_ssse3(s1, s2, buf);
                proof {
                    lemma_small_mod(*s1 as nat, BASE as nat);
                    lemma_small_mod(*s2 as nat, BASE as nat);
                }
                r
            },
        }
    }
}

/// The engines agree: the lane engine's reduced sums over the whole blocks,
/// with the trailing bytes folded in afterwards, reduce to what the scalar
/// engine's sums over all the bytes reduce to.
pub proof fn lemma_engines_agree(a: int, b: int, bs: Seq<u8>)
    ensures
        ({
            let k = (bs.len() / 32 * 32) as int;
            let r = rolled(a, b, bs.subrange(0, k));
            rolled(r.0, r.1, bs.subrange(k, bs.len() as int))
        }) == (fold_s1(a, bs) % BASE as int, fold_s2(a, b, bs) % BASE as int),
{
    let k = (bs.len() / 32 * 32) as int;
    lemma_rolled_concat(a, b, bs.subrange(0, k), bs.subrange(k, bs.len() as int));
    assert(bs.subrange(0, k) + bs.subrange(k, bs.len() as int) =~= bs);
}

/// Picks the block engine from what the processor offers: the lane-parallel
/// engine when it has both SSE3 and SSSE3, else nothing.
pub fn accelerated_do_blocks_if_supported(has_sse3: bool, has_ssse3: bool) -> (r: Option<
    BlockEngine,
>)
    ensures
        r == (if has_sse3 && has_ssse3 {
            Some(BlockEngine::Ssse3)
        } else {
            None
        }),
{
    if has_sse3 && has_ssse3 {
        Some(BlockEngine::Ssse3)
    } else {
        None
    }
}

/// An incremental Adler-32 checksum.
pub struct RollingAdler32 {
    s1: u32,
    s2: u32,
    engine: BlockEngine,
}

impl View for RollingAdler32 {
    /// The pair `(s1, s2)`.
    type V = (int, int);

    closed spec fn view(&self) -> (int, int) {
        (self.s1 as int, self.s2 as int)
    }
}

impl RollingAdler32 {
    /// The block engine bound to this handle.
    pub closed spec fn engine_spec(&self) -> BlockEngine {
        self.engine
    }

    /// Both sums are reduced.
    pub open spec fn wf(&self) -> bool {
        0 <= self@.0 < BASE && 0 <= self@.1 < BASE
    }

    /// A handle seeded at `(1, 0)`, bound to the probed engine, or to the
    /// scalar engine when the probe found none.
    pub fn create(accelerated: Option<BlockEngine>) -> (r: Self)
        ensures
            r.wf(),
            r@ == (1int, 0int),
            r.engine_spec() == (match accelerated {
                Some(e) => e,
                None => BlockEngine::Scalar,
            }),
    {
        let engine = match accelerated {
            Some(e) => e,
            None => BlockEngine::Scalar,
        };
        RollingAdler32 { s1: 1, s2: 0, engine }
    }

    /// The block engine bound to this handle.
    pub fn engine(&self) -> (r: BlockEngine)
        ensures
            r == self.engine_spec(),
    {
        self.engine
    }

    /// The two sums `(s1, s2)`.
    pub fn sums(&self) -> (r: (u32, u32))
        ensures
            r.0 == self@.0,
            r.1 == self@.1,
    {
        (self.s1, self.s2)
    }

    /// Binds the scalar engine for all later updates.
    pub fn force_scalar(&mut self)
        ensures
            final(self)@ == old(self)@,
            final(self).engine_spec() == BlockEngine::Scalar,
    {
        self.engine = BlockEngine::Scalar;
    }

    /// Folds all of `buf` into the sums, reducing them after every `NMAX`
    /// bytes and before returning.
    pub fn update(&mut self, buf: &[u8])
        requires
            old(self).wf(),
        ensures
            final(self).wf(),
            final(self)@ == rolled(old(self)@.0, old(self)@.1, buf@),
            final(self).engine_spec() == old(self).engine_spec(),
    {
        let ghost a = self.s1 as int;
        let ghost b = self.s2 as int;
        let len = buf.len();
        let mut pos: usize = 0;
        proof {
            assert(buf@.subrange(0, 0) =~= Seq::<u8>::empty());
            lemma_small_mod(a as nat, BASE as nat);
            lemma_small_mod(b as nat, BASE as nat);
        }
        while pos < len
            invariant
                pos <= len == buf@.len(),
                self.wf(),
                self.engine == old(self).engine,
                self@ == rolled(a, b, buf@.subrange(0, pos as int)),
            decreases len - pos,
        {
            let end = if len - pos > NMAX {
                pos + NMAX
            } else {
                len
            };
            let chunk = &buf[pos..end];
            let mut s1 = self.s1;
            let mut s2 = self.s2;
            let consumed = self.engine.do_blocks(&mut s1, &mut s2, chunk);
            let ghost (m1, m2) = (s1 as int, s2 as int);
            if consumed < chunk.len() {
                let tail = &chunk[consumed..chunk.len()];
                do_blocks_scalar(&mut s1, &mut s2, tail);
                proof {
                    lemma_small_mod(m1 as nat, BASE as nat);
                    lemma_small_mod(m2 as nat, BASE as nat);
                    lemma_rolled_concat(
                        self.s1 as int,
                        self.s2 as int,
                        chunk@.subrange(0, consumed as int),
                        tail@,
                    );
                    assert(chunk@.subrange(0, consumed as int) + tail@ =~= chunk@);
                }
            } else {
                assert(chunk@.subrange(0, consumed as int) =~= chunk@);
            }
            proof {
                lemma_rolled_concat(a, b, buf@.subrange(0, pos as int), chunk@);
                assert(buf@.subrange(0, pos as int) + chunk@ =~= buf@.subrange(0, end as int));
            }
            self.s1 = s1 % BASE;
            self.s2 = s2 % BASE;
            pos = end;
        }
        assert(buf@.subrange(0, len as int) =~= buf@);
    }

    /// The checksum word: `s2` in the high 16 bits, `s1` in the low 16 bits.
    pub fn hash(&self) -> (r: u32)
        requires
            self.wf(),
        ensures
            r == combined(self@.0, self@.1),
    {
        let lo = self.s1;
        let hi = self.s2;
        assert((hi << 16u32) | lo == hi * 65536 + lo) by (bit_vector)
            requires
                lo < 65536,
                hi < 65536,
        ;
        (hi << 16) | lo
    }
}

} // verus!
