use dustline::dust::clamp_offset;
use dustline::dust::warp_unit_curve;
use dustline::dust::DustBlock;
use dustline::dust::DustRing;
use dustline::SCALE;

const HALF: i64 = 500_000;

#[test]
fn unit_curve_warp_is_exact() {
    // curve = 1.0: offset = floor(|reference * amount|) with no
    // amount^(1-curve) contribution.
    assert_eq!(warp_unit_curve(HALF, 3), 1); // |0.5 * 3| = 1.5
    assert_eq!(warp_unit_curve(-750_000, 4), 3); // |-0.75 * 4| = 3.0
    assert_eq!(warp_unit_curve(SCALE, 5), 5); // |1.0 * 5| = 5.0
    assert_eq!(warp_unit_curve(0, 64), 0);
    assert_eq!(warp_unit_curve(-1, 64), 0); // tiny amplitude rounds down
}

#[test]
fn minimum_curve_saturates_toward_amount() {
    // curve at its variant minimum (0.1): the warp approaches `amount`
    // regardless of the reference magnitude, and stays clamped to it.
    let amount: u64 = 64;
    for &reference in [0.25f32, 0.5, 0.75, 1.0].iter() {
        let curve = 0.1f32;
        let warped = (reference * amount as f32)
            .abs()
            .powf(curve)
            * (amount as f32).powf(1.0 - curve);
        let w = warped.floor() as u64;
        let off = clamp_offset(w, amount, false);
        assert!(off <= amount);
        assert!(off >= 3 * amount / 4);
    }
}

#[test]
fn invert_mirrors_the_offset() {
    // invert = true yields exactly amount - offset, still within [0, amount].
    for warp in 0..12u64 {
        let plain = clamp_offset(warp, 5, false);
        let inverted = clamp_offset(warp, 5, true);
        assert_eq!(inverted, 5 - plain);
        assert!(plain <= 5 && inverted <= 5);
    }
    assert_eq!(clamp_offset(3, 5, true), 2);
    assert_eq!(clamp_offset(7, 5, false), 5);
    assert_eq!(clamp_offset(7, 5, true), 0);
}

#[test]
fn ring_warm_up_is_passthrough() {
    let mut d = DustRing::new(1, 3);
    for &x in [10, -20, 30].iter() {
        assert_eq!(d.process_sample(0, x, 7, 10, false), x);
    }
}

#[test]
fn ring_reads_backward_by_offset() {
    let mut d = DustRing::new(1, 3);
    for &x in [1, 2, 3].iter() {
        d.process_sample(0, x, 0, 0, false);
    }
    // History is [1,2,3]; pushing 4 gives [2,3,4]. The amount clamps to
    // capacity - 1 = 2, so warp 2 reads the oldest sample.
    assert_eq!(d.process_sample(0, 4, 2, 10, false), 2);
    // History [3,4,5]: offset 0 is the sample just pushed.
    assert_eq!(d.process_sample(0, 5, 0, 10, false), 5);
    // History [4,5,6], invert with warp 0 mirrors to the full offset.
    assert_eq!(d.process_sample(0, 6, 0, 10, true), 4);
}

#[test]
fn ring_unit_curve_reads_scaled_offset() {
    let mut d = DustRing::new(1, 3);
    for &x in [800_000, 100_000, 200_000].iter() {
        d.process_sample_unit_curve(0, x, 2, false);
    }
    // Reference is the oldest sample 0.8; warp = floor(0.8 * 2) = 1. After
    // pushing, history is [100000, 200000, 300000]: one step back reads
    // 200000.
    assert_eq!(d.process_sample_unit_curve(0, 300_000, 2, false), 200_000);
}

#[test]
fn ring_silence_stays_silence() {
    let mut d = DustRing::new(2, 4);
    for ch in 0..2 {
        for _ in 0..4 {
            assert_eq!(d.process_sample(ch, 0, 3, 3, false), 0);
        }
        for warp in 0..6u64 {
            assert_eq!(d.process_sample(ch, 0, warp, 3, false), 0);
            assert_eq!(d.process_sample(ch, 0, warp, 3, true), 0);
            assert_eq!(d.process_sample_unit_curve(ch, 0, 3, false), 0);
        }
    }
}

#[test]
fn block_first_call_is_passthrough() {
    let mut d = DustBlock::new();
    let cur = vec![1, 2, 3];
    let warps = vec![0, 0, 0];
    let out = d.process_block(&cur, &warps, 4);
    assert_eq!(out, cur);
    assert_eq!(d.prev_len(), 3);
    assert_eq!(d.prev_at(0), 1);
}

#[test]
fn block_reads_forward_with_overrun() {
    let mut d = DustBlock::new();
    let prev = vec![10, 20, 30];
    let warps0 = vec![0, 0, 0];
    d.process_block(&prev, &warps0, 4);
    let cur = vec![40, 50, 60];
    // Offsets land in the previous block, then spill into the current one,
    // then clamp to its last sample.
    let warps = vec![1, 2, 5];
    let out = d.process_block(&cur, &warps, 4);
    assert_eq!(out, vec![20, 40, 60]);
    // The current block is retained for the next call.
    assert_eq!(d.prev_at(2), 60);
}

#[test]
fn block_silence_stays_silence() {
    let mut d = DustBlock::new();
    let zeros = vec![0i64; 6];
    let warps: Vec<u64> = (0..6).collect();
    let first = d.process_block(&zeros, &warps, 5);
    assert_eq!(first, zeros);
    let second = d.process_block(&zeros, &warps, 5);
    assert_eq!(second, zeros);
}
