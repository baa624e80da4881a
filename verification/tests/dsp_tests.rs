use ruspar::convolver::Spatializer;
use ruspar::delayline::{
    delay_samples_for_distance, distance_gain_q16, next_pow_of_2, CircularDelayBuffer,
    SPEED_OF_SOUND_MM_PER_S,
};
use ruspar::fdn::{create_hadamard, map_ism_to_fdn_channel, N_FDN_LINES};
use ruspar::filter::{segment_count, spectrum_bins};

// Delay law: an impulse over a 1 m direct path first reaches the
// listener at sample ceil(1.0 / 343 * 48000) = 140; a 3 m first-order
// reflection lands at 420.
#[test]
fn delay_law_direct_and_reflection() {
    let d = delay_samples_for_distance(1000, 48000, SPEED_OF_SOUND_MM_PER_S);
    assert_eq!(d, 140);
    let r = delay_samples_for_distance(3000, 48000, SPEED_OF_SOUND_MM_PER_S);
    assert_eq!(r, 420);
    assert_eq!(delay_samples_for_distance(0, 48000, SPEED_OF_SOUND_MM_PER_S), 0);
}

// A requested delay greater than the buffer capacity is clamped to one
// slot below the capacity; one of exactly the capacity is honoured, and
// nothing panics.
#[test]
fn over_capacity_delay_is_clamped() {
    let mut buf = CircularDelayBuffer::new(1000);
    assert_eq!(buf.capacity, 1024);
    buf.set_delay_time_samples(5000);
    assert_eq!(buf.delay_samples, 1023);
    buf.set_delay_time_samples(1025);
    assert_eq!(buf.delay_samples, 1023);
    buf.set_delay_time_samples(1024);
    assert_eq!(buf.delay_samples, 1024);
    buf.set_delay_time_samples(140);
    assert_eq!(buf.delay_samples, 140);
    let r = buf.read_index();
    assert_eq!(r, (0 + 1024 - 140) % 1024);
    buf.advance();
    assert_eq!(buf.write_pos, 1);
}

// A source on the listener saturates the distance gain at the ceiling
// the epsilon sets instead of diverging.
#[test]
fn distance_gain_saturates_at_zero_distance() {
    // eps = 10 mm: ceiling is 65_536_000 / 10.
    assert_eq!(distance_gain_q16(0, 10), 6_553_600);
    assert_eq!(distance_gain_q16(5, 10), 6_553_600);
    // 1 m: unit gain in Q16 times the millimetre scale.
    assert_eq!(distance_gain_q16(1000, 10), 65_536);
    // 2 m: half.
    assert_eq!(distance_gain_q16(2000, 10), 32_768);
}

#[test]
fn next_pow_of_2_rounds_up() {
    assert_eq!(next_pow_of_2(0), 1);
    assert_eq!(next_pow_of_2(1), 1);
    assert_eq!(next_pow_of_2(2), 2);
    assert_eq!(next_pow_of_2(3), 4);
    assert_eq!(next_pow_of_2(1024), 1024);
    assert_eq!(next_pow_of_2(1025), 2048);
}

#[test]
fn ism_channels_spread_round_robin() {
    assert_eq!(map_ism_to_fdn_channel(0, N_FDN_LINES), 0);
    assert_eq!(map_ism_to_fdn_channel(23, N_FDN_LINES), 23);
    assert_eq!(map_ism_to_fdn_channel(24, N_FDN_LINES), 0);
    assert_eq!(map_ism_to_fdn_channel(36, N_FDN_LINES), 12);
}

// The sign lattice of a 4-line Hadamard mixer, entry for entry, and
// the orthogonality of the rows of the 8-line one.
#[test]
fn hadamard_signs_are_exact() {
    let h = create_hadamard(4);
    let expected: [[i64; 4]; 4] = [
        [1, 1, 1, 1],
        [-1, 1, -1, 1],
        [-1, -1, 1, 1],
        [1, -1, -1, 1],
    ];
    for i in 0..4 {
        for j in 0..4 {
            assert_eq!(h[i][j], expected[i][j]);
        }
    }
    let h8 = create_hadamard(8);
    for a in 0..8 {
        for b in 0..8 {
            let dot: i64 = (0..8).map(|k| h8[a][k] * h8[b][k]).sum();
            assert_eq!(dot, if a == b { 8 } else { 0 });
        }
    }
}

// The convolver meets filter segment s with the input block written s
// buffers ago, wrapping over the ring.
#[test]
fn convolver_ring_schedule() {
    let mut sp = Spatializer::new(128, 3);
    assert_eq!(sp.index, 0);
    sp.advance_segment();
    assert_eq!(sp.index, 1);
    assert_eq!(sp.history_index(0), 1);
    assert_eq!(sp.history_index(1), 0);
    assert_eq!(sp.history_index(2), 2);
    sp.advance_segment();
    sp.advance_segment();
    assert_eq!(sp.index, 0);
}

#[test]
fn filter_segmentation_counts() {
    assert_eq!(segment_count(0, 8), 1);
    assert_eq!(segment_count(5, 8), 1);
    assert_eq!(segment_count(16, 8), 2);
    assert_eq!(segment_count(17, 8), 3);
    assert_eq!(segment_count(384, 128), 3);
    assert_eq!(spectrum_bins(256), 129);
}

// Constant-power crossfade: the per-sample fade pair the renderer
// applies, sin^2 and cos^2 of the same argument, sums to one at every
// index.
#[test]
fn crossfade_gains_sum_to_one() {
    let n: usize = 128;
    for i in 0..n {
        let arg = (std::f64::consts::PI / 2.0) * (i as f64) / ((2 * n - 1) as f64);
        let fade_in = arg.sin().powi(2);
        let fade_out = arg.cos().powi(2);
        assert!((fade_in + fade_out - 1.0).abs() < 1e-12);
        assert!(fade_in >= 0.0 && fade_out >= 0.0);
    }
}

// Transforming a block to the frequency domain and back, scaled by the
// transform length, returns the block within 1e-5 relative tolerance.
#[test]
fn fft_round_trip_is_identity() {
    let mut planner = realfft::RealFftPlanner::<f32>::new();
    let n = 256usize;
    let r2c = planner.plan_fft_forward(n);
    let c2r = planner.plan_fft_inverse(n);
    let mut data: Vec<f32> = (0..n)
        .map(|i| ((i * 37 + 11) % 101) as f32 / 101.0 - 0.5)
        .collect();
    let original = data.clone();
    let mut spectrum = r2c.make_output_vec();
    r2c.process(&mut data, &mut spectrum).unwrap();
    let mut back = c2r.make_output_vec();
    c2r.process(&mut spectrum, &mut back).unwrap();
    let peak = original.iter().fold(0.0f32, |m, x| m.max(x.abs()));
    for (a, b) in original.iter().zip(back.iter()) {
        let scaled = b / n as f32;
        assert!((a - scaled).abs() <= 1e-5 * peak.max(1.0));
    }
}
