use dustline::dither::DitherAccumulator;
use dustline::SCALE;

#[test]
fn truncates_without_dither() {
    let mut d = DitherAccumulator::new();
    // amount = 2.5 in fixed point: plain rounding truncates every sample.
    let amount = 2 * SCALE + SCALE / 2;
    for _ in 0..100 {
        assert_eq!(d.next_offset(amount, false), 2);
    }
}

#[test]
fn dither_preserves_long_run_average() {
    let mut d = DitherAccumulator::new();
    // amount = 2.5: with dithering the emitted offsets must average to 2.5.
    let amount = 2 * SCALE + SCALE / 2;
    let n: u64 = 1000;
    let mut total: u64 = 0;
    for _ in 0..n {
        let off = d.next_offset(amount, true);
        assert!(off == 2 || off == 3);
        total += off;
    }
    // Conservation: SCALE * total + carry == n * amount + 0, and the carry
    // returns to zero after each whole number of crossings.
    assert_eq!(total, 2500);
}

#[test]
fn dither_carry_crosses_exactly_once() {
    let mut d = DitherAccumulator::new();
    // amount = 0.75: offsets go 0, 1, 1, 1 and repeat, averaging 0.75.
    let amount = 3 * SCALE / 4;
    let offs: Vec<u64> = (0..8).map(|_| d.next_offset(amount, true)).collect();
    assert_eq!(offs, vec![0, 1, 1, 1, 0, 1, 1, 1]);
}

#[test]
fn zero_amount_emits_zero() {
    let mut d = DitherAccumulator::new();
    for _ in 0..10 {
        assert_eq!(d.next_offset(0, true), 0);
        assert_eq!(d.next_offset(0, false), 0);
    }
}
