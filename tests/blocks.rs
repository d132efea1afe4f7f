use libaaarg::{
    decimate, jitter_step, jitter_walk, location_bound, place_stutter, samples_covering, stutter_at, AliasBlock, BlockError, InclusiveRange, SignalBlock,
    StutterBlock, TimeSpan,
};
use rand::rngs::StdRng;
use rand::SeedableRng;

fn ramp(n: usize) -> Vec<f32> {
    (0..n).map(|i| i as f32).collect()
}

fn stutter(count: (u16, u16), dur_ms: (u64, u64), piece_ms: (u64, u64)) -> StutterBlock {
    StutterBlock {
        stutter_count: InclusiveRange::new(count.0, count.1),
        stutter_duration: InclusiveRange::new(TimeSpan::from_millis(dur_ms.0), TimeSpan::from_millis(dur_ms.1)),
        stutter_piece_length: InclusiveRange::new(
            TimeSpan::from_millis(piece_ms.0),
            TimeSpan::from_millis(piece_ms.1),
        ),
    }
}

#[test]
fn alias_ramp_factor_two_scenario() {
    let block = AliasBlock { factor: 2, factor_variation: 0, target_duration: TimeSpan::from_secs(1) };
    let mut rng = StdRng::seed_from_u64(1);
    let out = block.process(ramp(44100), 44100, &mut rng).unwrap();
    assert_eq!(out.channels, 2);
    assert_eq!(out.sample_rate, 44100);
    assert_eq!(out.samples.len(), 22050);
    for (i, s) in out.samples.iter().enumerate() {
        assert_eq!(*s, (2 * i) as f32);
    }
}

#[test]
fn stutter_constant_input_scenario() {
    let block = stutter((1, 1), (10, 10), (2, 2));
    let mut rng = StdRng::seed_from_u64(2);
    let out = block.process(vec![5.0f32; 100], 1000, &mut rng).unwrap();
    assert_eq!(out.samples.len(), 100);
    assert!(out.samples.iter().all(|s| *s == 5.0));
    assert_eq!(out.channels, 2);
    assert_eq!(out.sample_rate, 44100);
}

#[test]
fn stutter_empty_source_fails() {
    let block = stutter((1, 3), (10, 10), (2, 2));
    let mut rng = StdRng::seed_from_u64(3);
    let r = block.process(Vec::<f32>::new(), 1000, &mut rng);
    assert_eq!(r.err(), Some(BlockError::EmptySource));
}

#[test]
fn alias_identity_keeps_window() {
    let block = AliasBlock::default();
    let mut rng = StdRng::seed_from_u64(4);
    // One second at 10 Hz, times four, is a window of 40 samples.
    let out = block.process(ramp(100), 10, &mut rng).unwrap();
    assert_eq!(out.samples, ramp(40));
    let short = block.process(ramp(7), 10, &mut rng).unwrap();
    assert_eq!(short.samples, ramp(7));
    assert_eq!(short.channels, 2);
    assert_eq!(short.sample_rate, 44100);
}

#[test]
fn alias_decimation_by_three() {
    let block = AliasBlock { factor: 3, factor_variation: 0, target_duration: TimeSpan::from_secs(1) };
    let mut rng = StdRng::seed_from_u64(5);
    // The window is 1 s * 3 * 4 = 120 samples at 10 Hz; 100 are there.
    let out = block.process(ramp(100), 10, &mut rng).unwrap();
    assert_eq!(out.samples.len(), 34);
    for (j, s) in out.samples.iter().enumerate() {
        assert_eq!(*s, (3 * j) as f32);
    }
}

#[test]
fn alias_jitter_steps_stay_in_bounds() {
    let block = AliasBlock { factor: 2, factor_variation: 1, target_duration: TimeSpan::from_secs(1) };
    for seed in 0..20u64 {
        let mut rng = StdRng::seed_from_u64(seed);
        let out = block.process(ramp(1000), 100, &mut rng).unwrap();
        assert!(out.samples.len() <= 100);
        assert_eq!(out.samples[0], 0.0);
        for w in out.samples.windows(2) {
            let step = w[1] - w[0];
            assert!((1.0..=3.0).contains(&step));
        }
        // The walked window is 1 s * 2 at 100 Hz.
        assert!(out.samples.iter().all(|s| *s < 200.0));
    }
}

#[test]
fn alias_jitter_may_repeat_samples() {
    let block = AliasBlock { factor: 0, factor_variation: 1, target_duration: TimeSpan::from_secs(1) };
    let mut rng = StdRng::seed_from_u64(6);
    let out = block.process(ramp(1000), 50, &mut rng);
    // The window is 1 s * 0 = nothing to walk.
    assert_eq!(out.unwrap().samples.len(), 0);
    let block = AliasBlock { factor: 1, factor_variation: 1, target_duration: TimeSpan::from_secs(1) };
    let out = block.process(ramp(1000), 50, &mut rng).unwrap();
    assert!(out.samples.len() <= 50);
    for w in out.samples.windows(2) {
        assert!((0.0..=2.0).contains(&(w[1] - w[0])));
    }
}

#[test]
fn alias_zero_factor_without_variation_is_invalid() {
    let block = AliasBlock { factor: 0, factor_variation: 0, target_duration: TimeSpan::from_secs(1) };
    let mut rng = StdRng::seed_from_u64(7);
    assert_eq!(block.process(ramp(10), 10, &mut rng).err(), Some(BlockError::InvalidParameters));
}

#[test]
fn stutter_without_count_is_identity() {
    let block = StutterBlock::default();
    let mut rng = StdRng::seed_from_u64(8);
    let out = block.process(ramp(50), 1000, &mut rng).unwrap();
    assert_eq!(out.samples, ramp(50));
    assert_eq!(out.channels, 2);
    assert_eq!(out.sample_rate, 44100);
    let empty = block.process(Vec::<f32>::new(), 1000, &mut rng).unwrap();
    assert!(empty.samples.is_empty());
}

#[test]
fn stutter_invalid_range_is_refused() {
    let block = stutter((3, 1), (1, 1), (1, 1));
    let mut rng = StdRng::seed_from_u64(9);
    assert_eq!(block.process(ramp(50), 1000, &mut rng).err(), Some(BlockError::InvalidParameters));
    let block = stutter((1, 1), (5, 1), (1, 1));
    assert_eq!(block.process(ramp(50), 1000, &mut rng).err(), Some(BlockError::InvalidParameters));
}

#[test]
fn stutter_longer_than_source_is_refused() {
    let block = stutter((1, 1), (20, 20), (2, 2));
    let mut rng = StdRng::seed_from_u64(10);
    assert_eq!(block.process(ramp(10), 1000, &mut rng).err(), Some(BlockError::SourceTooShort));
    // A duration equal to the length leaves no place to start.
    let block = stutter((1, 1), (10, 10), (2, 2));
    assert_eq!(block.process(ramp(10), 1000, &mut rng).err(), Some(BlockError::SourceTooShort));
}

#[test]
fn stutter_repeats_a_piece_of_a_ramp() {
    let block = stutter((2, 2), (4, 4), (2, 2));
    for seed in 0..20u64 {
        let mut rng = StdRng::seed_from_u64(seed);
        let input = ramp(20);
        let out = block.process(input.clone(), 1000, &mut rng).unwrap();
        assert_eq!(out.samples.len(), 20);
        // Every sample was present in the input, at or before its position.
        for (x, s) in out.samples.iter().enumerate() {
            assert!(*s <= x as f32);
        }
    }
}

#[test]
fn stutter_at_tiles_the_piece() {
    let mut s = ramp(10);
    stutter_at(&mut s, 2, 3, 2);
    assert_eq!(s, vec![0.0, 1.0, 2.0, 3.0, 2.0, 3.0, 6.0, 7.0, 8.0, 9.0]);
}

#[test]
fn stutter_at_stops_at_buffer_end() {
    let mut s = ramp(10);
    stutter_at(&mut s, 7, 5, 2);
    assert_eq!(s, vec![0.0, 1.0, 2.0, 3.0, 4.0, 5.0, 6.0, 7.0, 8.0, 7.0]);
    let mut t = ramp(10);
    stutter_at(&mut t, 10, 5, 2);
    assert_eq!(t, ramp(10));
}

#[test]
fn stutter_at_with_empty_piece_writes_nothing() {
    let mut s = ramp(10);
    stutter_at(&mut s, 2, 5, 0);
    assert_eq!(s, ramp(10));
}

#[test]
fn decimate_takes_every_kth() {
    assert_eq!(decimate(&ramp(10), 10, 3), vec![0.0, 3.0, 6.0, 9.0]);
    assert_eq!(decimate(&ramp(10), 9, 3), vec![0.0, 3.0, 6.0]);
    assert!(decimate(&ramp(10), 0, 3).is_empty());
}

#[test]
fn jitter_walk_follows_steps() {
    let out = jitter_walk(&ramp(10), 10, 5, &vec![0, 2, 3, 10, 1]);
    assert_eq!(out, vec![0.0, 0.0, 2.0, 5.0]);
    let full = jitter_walk(&ramp(10), 10, 3, &vec![1, 1, 1]);
    assert_eq!(full, vec![0.0, 1.0, 2.0]);
    let cut = jitter_walk(&ramp(10), 4, 10, &vec![2; 10]);
    assert_eq!(cut, vec![0.0, 2.0]);
}

#[test]
fn samples_covering_scales_and_caps() {
    assert_eq!(samples_covering(TimeSpan::from_secs(1), 8, 44100, 1_000_000_000), 352800);
    assert_eq!(samples_covering(TimeSpan::from_millis(1500), 1, 1000, 10), 10);
    assert_eq!(samples_covering(TimeSpan::from_nanos(u64::MAX), u128::MAX, u32::MAX, 5), 5);
    assert_eq!(samples_covering(TimeSpan::from_nanos(999_999), 1, 1000, 100), 0);
}

#[test]
fn time_span_to_samples_floors() {
    assert_eq!(TimeSpan::from_millis(10).to_samples(1000), 10);
    assert_eq!(TimeSpan::from_nanos(1_500_000).to_samples(1000), 1);
    assert_eq!(TimeSpan::from_secs(2).to_samples(44100), 88200);
    assert_eq!(TimeSpan::zero().as_nanos(), 0);
}

#[test]
fn samples_needed_follows_variation() {
    let plain = AliasBlock { factor: 3, factor_variation: 0, target_duration: TimeSpan::from_secs(1) };
    assert_eq!(plain.samples_needed(100), 1200);
    let jittered = AliasBlock { factor: 3, factor_variation: 2, target_duration: TimeSpan::from_secs(1) };
    assert_eq!(jittered.samples_needed(100), 300);
}

#[test]
fn defaults_match_documented_values() {
    let a = AliasBlock::default();
    assert_eq!(a.factor, 1);
    assert_eq!(a.factor_variation, 0);
    assert_eq!(a.target_duration, TimeSpan::from_secs(1));
    let s = StutterBlock::default();
    assert_eq!(s.stutter_count, InclusiveRange::new(0, 0));
}

#[test]
fn output_buffer_accessors() {
    let block = AliasBlock::default();
    let mut rng = StdRng::seed_from_u64(11);
    let out = block.process(ramp(3), 10, &mut rng).unwrap();
    assert_eq!(out.channels(), 2);
    assert_eq!(out.sample_rate(), 44100);
    assert_eq!(out.len(), 3);
    assert_eq!(out.into_samples(), ramp(3));
}

#[test]
fn jitter_step_centres_on_factor() {
    assert_eq!(jitter_step(5, 2, 0), 3);
    assert_eq!(jitter_step(5, 2, 2), 5);
    assert_eq!(jitter_step(5, 2, 4), 7);
    assert_eq!(jitter_step(1, 3, 0), 0);
    assert_eq!(jitter_step(1, 3, 6), 4);
}

#[test]
fn jitter_walk_ends_when_steps_leave_window() {
    // Fewer steps than the target, but the last one leaves the window.
    let out = jitter_walk(&ramp(10), 10, 100, &vec![4, 4, 4]);
    assert_eq!(out, vec![0.0, 4.0, 8.0]);
}

#[test]
fn location_bound_needs_room_after_the_stutter() {
    assert_eq!(location_bound(3, 10), Ok(6));
    assert_eq!(location_bound(0, 1), Ok(0));
    assert_eq!(location_bound(10, 10), Err(BlockError::SourceTooShort));
    assert_eq!(location_bound(u128::MAX, 10), Err(BlockError::SourceTooShort));
}

#[test]
fn place_stutter_with_piece_past_the_end_changes_nothing() {
    let mut s = ramp(10);
    place_stutter(&mut s, 2, 5, u128::MAX);
    assert_eq!(s, ramp(10));
    let mut t = ramp(10);
    place_stutter(&mut t, 2, 3, 2);
    assert_eq!(t, vec![0.0, 1.0, 2.0, 3.0, 2.0, 3.0, 6.0, 7.0, 8.0, 9.0]);
}
