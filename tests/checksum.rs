use adler32_accel::lanes::{
    add_epi32, hsum_epi32, loadu_si128, madd_epi16_ones, maddubs_epi16, sad_epu8,
    shuffle_epi32_1032, shuffle_epi32_2301, slli_epi32_5,
};
use adler32_accel::{
    accelerated_do_blocks_if_supported, do_blocks_scalar, do_blocks_ssse3, BlockEngine,
    RollingAdler32, BLOCK_SIZE, NMAX,
};

/// A plain Adler-32, reducing after every byte.
fn reference(data: &[u8]) -> u32 {
    let mut a: u64 = 1;
    let mut b: u64 = 0;
    for &x in data {
        a = (a + x as u64) % 65521;
        b = (b + a) % 65521;
    }
    ((b << 16) | a) as u32
}

fn pattern(len: usize, seed: u32) -> Vec<u8> {
    let mut x = seed.wrapping_mul(2654435761).wrapping_add(12345);
    let mut v = Vec::with_capacity(len);
    for _ in 0..len {
        x ^= x << 13;
        x ^= x >> 17;
        x ^= x << 5;
        v.push((x >> 11) as u8);
    }
    v
}

fn hash_with(engine: Option<BlockEngine>, data: &[u8]) -> (u32, (u32, u32)) {
    let mut h = RollingAdler32::create(engine);
    h.update(data);
    (h.hash(), h.sums())
}

#[test]
fn empty_input_hashes_to_seed() {
    let h = RollingAdler32::create(None);
    assert_eq!(h.hash(), 1);
    let h = RollingAdler32::create(Some(BlockEngine::Ssse3));
    assert_eq!(h.hash(), 1);
}

#[test]
fn wally_world_known_vector() {
    let data = b"Wally World";
    assert_eq!(reference(data), 0x18ce_0432);
    assert_eq!(hash_with(None, data).0, 0x18ce_0432);
    assert_eq!(hash_with(Some(BlockEngine::Ssse3), data).0, 0x18ce_0432);
}

#[test]
fn wikipedia_known_vector() {
    assert_eq!(hash_with(Some(BlockEngine::Ssse3), b"Wikipedia").0, 0x11e6_0398);
}

#[test]
fn engines_agree_at_block_and_group_boundaries() {
    let lens = [
        0,
        1,
        BLOCK_SIZE - 1,
        BLOCK_SIZE,
        BLOCK_SIZE + 1,
        2 * BLOCK_SIZE + 7,
        173 * BLOCK_SIZE,
        173 * BLOCK_SIZE + 1,
        NMAX - 1,
        NMAX,
        NMAX + 1,
        2 * NMAX + 33,
        100 * 1024,
    ];
    for (i, &len) in lens.iter().enumerate() {
        let data = pattern(len, i as u32);
        let scalar = hash_with(None, &data);
        let lanes = hash_with(Some(BlockEngine::Ssse3), &data);
        assert_eq!(scalar, lanes, "length {}", len);
        assert_eq!(scalar.0, reference(&data), "length {}", len);
    }
}

#[test]
fn engines_agree_on_all_ones_bytes() {
    for &len in &[NMAX - 1, NMAX, NMAX + 1, 3 * NMAX] {
        let data = vec![255u8; len];
        let scalar = hash_with(None, &data);
        let lanes = hash_with(Some(BlockEngine::Ssse3), &data);
        assert_eq!(scalar, lanes);
        assert_eq!(scalar.0, reference(&data));
    }
}

#[test]
fn streaming_equals_batch() {
    let data = pattern(20000, 7);
    let whole = hash_with(Some(BlockEngine::Ssse3), &data).0;
    let cuts = [0usize, 1, 31, 64, 65, 5552, 5600, 11111, 19999, 20000];
    let mut h = RollingAdler32::create(Some(BlockEngine::Ssse3));
    for w in cuts.windows(2) {
        h.update(&data[w[0]..w[1]]);
    }
    assert_eq!(h.hash(), whole);
    let mut s = RollingAdler32::create(None);
    for piece in data.chunks(3) {
        s.update(piece);
    }
    assert_eq!(s.hash(), whole);
}

#[test]
fn sums_stay_reduced() {
    let data = vec![255u8; 3 * NMAX + 5];
    for engine in [None, Some(BlockEngine::Ssse3)] {
        let mut h = RollingAdler32::create(engine);
        h.update(&data);
        let (s1, s2) = h.sums();
        assert!(s1 < 65521 && s2 < 65521);
    }
}

#[test]
fn empty_update_changes_nothing() {
    let mut h = RollingAdler32::create(Some(BlockEngine::Ssse3));
    h.update(b"some bytes");
    let before = h.sums();
    h.update(&[]);
    assert_eq!(h.sums(), before);
}

#[test]
fn engine_choice_from_features() {
    assert_eq!(accelerated_do_blocks_if_supported(true, true), Some(BlockEngine::Ssse3));
    assert_eq!(accelerated_do_blocks_if_supported(true, false), None);
    assert_eq!(accelerated_do_blocks_if_supported(false, true), None);
    assert_eq!(accelerated_do_blocks_if_supported(false, false), None);
}

#[test]
fn create_binds_probed_engine_and_force_scalar_overrides() {
    let mut h = RollingAdler32::create(Some(BlockEngine::Ssse3));
    assert_eq!(h.engine(), BlockEngine::Ssse3);
    h.update(b"abc");
    let before = h.sums();
    h.force_scalar();
    assert_eq!(h.engine(), BlockEngine::Scalar);
    assert_eq!(h.sums(), before);
    h.update(b"def");
    assert_eq!(h.hash(), reference(b"abcdef"));
    assert_eq!(RollingAdler32::create(None).engine(), BlockEngine::Scalar);
}

#[test]
fn scalar_engine_leaves_sums_unreduced() {
    let data = vec![255u8; 300];
    let (mut s1, mut s2) = (65520u32, 65520u32);
    let n = do_blocks_scalar(&mut s1, &mut s2, &data);
    assert_eq!(n, 300);
    assert_eq!(s1, 65520 + 300 * 255);
    let expected: u64 = 65520 + 300 * 65520 + 255 * 300 * 301 / 2;
    assert_eq!(s2 as u64, expected);
}

#[test]
fn lane_engine_consumes_whole_blocks_only() {
    let data = pattern(5 * 32 + 9, 3);
    let (mut s1, mut s2) = (1u32, 0u32);
    let n = do_blocks_ssse3(&mut s1, &mut s2, &data);
    assert_eq!(n, 160);
    assert_eq!((s2 << 16) | s1, reference(&data[..160]));
    let (mut t1, mut t2) = (1u32, 0u32);
    assert_eq!(do_blocks_ssse3(&mut t1, &mut t2, &data[..31]), 0);
    assert_eq!((t1, t2), (1, 0));
}

#[test]
fn lane_engine_reduces_across_groups() {
    let data = vec![255u8; 400 * 32];
    let (mut s1, mut s2) = (65520u32, 65520u32);
    let n = do_blocks_ssse3(&mut s1, &mut s2, &data);
    assert_eq!(n, 400 * 32);
    let (mut r1, mut r2) = (65520u64, 65520u64);
    for &x in &data {
        r1 = (r1 + x as u64) % 65521;
        r2 = (r2 + r1) % 65521;
    }
    assert_eq!((s1 as u64, s2 as u64), (r1, r2));
}

#[test]
fn block_engine_dispatch() {
    let data = pattern(100, 9);
    let (mut a1, mut a2) = (1u32, 0u32);
    assert_eq!(BlockEngine::Scalar.do_blocks(&mut a1, &mut a2, &data), 100);
    let (mut b1, mut b2) = (1u32, 0u32);
    assert_eq!(BlockEngine::Ssse3.do_blocks(&mut b1, &mut b2, &data), 96);
    assert_eq!((b2 << 16) | b1, reference(&data[..96]));
}

#[test]
fn lane_primitives() {
    let buf: Vec<u8> = (0u8..40).collect();
    let v = loadu_si128(&buf, 3);
    assert_eq!(v[0], 3);
    assert_eq!(v[15], 18);
    assert_eq!(sad_epu8(&v), [3 + 4 + 5 + 6 + 7 + 8 + 9 + 10, 0, 11 + 12 + 13 + 14 + 15 + 16 + 17 + 18, 0]);
    let taps = [2u8; 16];
    let m = maddubs_epi16(&v, &taps);
    assert_eq!(m[0], 2 * 3 + 2 * 4);
    assert_eq!(m[7], 2 * 17 + 2 * 18);
    assert_eq!(madd_epi16_ones(&m)[0], 2 * (3 + 4 + 5 + 6));
    assert_eq!(add_epi32([1, 2, 3, u32::MAX], [4, 5, 6, 2]), [5, 7, 9, 1]);
    assert_eq!(slli_epi32_5([1, 2, 3, 4]), [32, 64, 96, 128]);
    assert_eq!(shuffle_epi32_2301([1, 2, 3, 4]), [2, 1, 4, 3]);
    assert_eq!(shuffle_epi32_1032([1, 2, 3, 4]), [3, 4, 1, 2]);
    assert_eq!(hsum_epi32([1, 2, 3, 4]), 10);
}
