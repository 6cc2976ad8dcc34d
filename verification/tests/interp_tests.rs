use dustline::history::HistoryBuffer;
use dustline::interp::LinearInterpolator;
use dustline::segment::find_end_point;
use dustline::SCALE;

const HALF: i64 = 500_000;
const FULL: i64 = 1_000_000;

#[test]
fn warm_up_is_passthrough() {
    // While the history is below capacity, output == input exactly.
    let mut e = LinearInterpolator::new(1, 4);
    let inputs = [10, -20, 30, -40];
    for &x in inputs.iter() {
        let out = e.process_sample(0, x, 2 * SCALE, 0, false);
        assert_eq!(out, x);
    }
}

#[test]
fn wide_tolerance_extends_to_full_span() {
    // Samples all within [-1, 1]; a tolerance of 10.0 can never be exceeded,
    // so the detector must extend the segment to the whole span.
    let mut h = HistoryBuffer::new(5);
    for &v in [HALF, -FULL, FULL, -HALF, FULL / 4].iter() {
        h.push_grow(v);
    }
    assert_eq!(find_end_point(&h, 4, 10 * SCALE), 4);
    assert_eq!(find_end_point(&h, 3, 10 * SCALE), 3);
}

#[test]
fn zero_tolerance_breaks_at_first_deviation() {
    // tolerance = 0 and a non-constant signal: the first non-zero deviation
    // ends the segment, giving sample-and-hold behaviour.
    let mut h = HistoryBuffer::new(5);
    for &v in [0, HALF / 2, FULL, -HALF, FULL / 4].iter() {
        h.push_grow(v);
    }
    // Line from h[0]=0 to h[4]: at i=1 the line is far from h[1].
    assert_eq!(find_end_point(&h, 4, 0), 1);
}

#[test]
fn zero_tolerance_keeps_exact_lines() {
    // A signal that is exactly linear stays one segment even at tolerance 0.
    let mut h = HistoryBuffer::new(5);
    for &v in [0, HALF, FULL, 3 * HALF, 2 * FULL].iter() {
        h.push_grow(v);
    }
    assert_eq!(find_end_point(&h, 4, 0), 4);
}

#[test]
fn silence_stays_silence() {
    // All-zero blocks come back all-zero, through warm-up and after it.
    let mut e = LinearInterpolator::new(2, 3);
    for _ in 0..10 {
        for ch in 0..2 {
            let mut block = vec![0i64; 8];
            e.process_block(ch, &mut block, 2 * SCALE, SCALE / 100, true);
            assert_eq!(block, vec![0i64; 8]);
        }
    }
}

#[test]
fn stereo_scenario_detects_midpoint_segment() {
    // amount = 2, tolerance = 0.01, capacity = amount + 1 = 3. The block
    // [0.0, 0.5, 1.0, 0.5] repeats; the line from 0.0 to 1.0 matches 0.5 at
    // its midpoint within tolerance, so the detector finds end_point = 2 and
    // replays the line. After the first block the outputs settle into the
    // periodic ramp [0.5, 1.0, 0.5, 0.0].
    let mut e = LinearInterpolator::new(2, 3);
    let amount = 2 * SCALE;
    let tol = SCALE / 100;
    let input = [0, HALF, FULL, HALF];

    let mut first = Vec::new();
    for ch in 0..2 {
        let mut block: Vec<i64> = input.to_vec();
        e.process_block(ch, &mut block, amount, tol, false);
        first.push(block);
    }
    // Three warm-up samples pass through; the fourth starts a segment whose
    // anchor is the oldest sample, 0.0.
    assert_eq!(first[0], vec![0, HALF, FULL, 0]);
    assert_eq!(first[1], vec![0, HALF, FULL, 0]);

    let mut last = Vec::new();
    for _ in 0..29 {
        last.clear();
        for ch in 0..2 {
            let mut block: Vec<i64> = input.to_vec();
            e.process_block(ch, &mut block, amount, tol, false);
            last.push(block.clone());
        }
    }
    assert_eq!(last[0], vec![HALF, FULL, HALF, 0]);
    assert_eq!(last[1], vec![HALF, FULL, HALF, 0]);
}

#[test]
fn empty_block_is_a_no_op() {
    let mut e = LinearInterpolator::new(1, 3);
    let mut block: Vec<i64> = Vec::new();
    e.process_block(0, &mut block, 2 * SCALE, 0, false);
    assert!(block.is_empty());
}

#[test]
fn oversized_amount_clamps_to_capacity() {
    // With capacity 3, an amount of 100 clamps to span 2, so the engine
    // behaves exactly as with amount = 2.
    let input = [0, HALF, FULL, HALF];
    let mut big = LinearInterpolator::new(1, 3);
    let mut two = LinearInterpolator::new(1, 3);
    for _ in 0..5 {
        let mut a: Vec<i64> = input.to_vec();
        let mut b: Vec<i64> = input.to_vec();
        big.process_block(0, &mut a, 100 * SCALE, SCALE / 100, false);
        two.process_block(0, &mut b, 2 * SCALE, SCALE / 100, false);
        assert_eq!(a, b);
    }
}

#[test]
fn per_channel_state_is_independent() {
    let mut e = LinearInterpolator::new(2, 3);
    // Drive only channel 0 past warm-up; channel 1 must still pass through.
    for _ in 0..8 {
        e.process_sample(0, FULL, 2 * SCALE, 0, false);
    }
    let out = e.process_sample(1, -HALF, 2 * SCALE, 0, false);
    assert_eq!(out, -HALF);
}
