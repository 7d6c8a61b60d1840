use beamy_glitch::engine::BeamyGlitch;
use beamy_glitch::{DEFAULT_ATTACK_STEP, DEFAULT_RELEASE_STEP, SCALE};

const FULL: i64 = SCALE as i64;

fn constant_wave(len: usize) -> Vec<i64> {
    vec![FULL; len]
}

#[test]
fn new_engine_is_silent_with_default_steps() {
    let mut eng = BeamyGlitch::new();
    assert_eq!(eng.voice_count(), 0);
    assert_eq!(eng.attack_step, DEFAULT_ATTACK_STEP);
    assert_eq!(eng.release_step, DEFAULT_RELEASE_STEP);
    let (left, right) = eng.process(64);
    assert_eq!(left, vec![0i64; 64]);
    assert_eq!(right, left);
}

#[test]
fn default_engine_matches_new() {
    let eng: BeamyGlitch = Default::default();
    assert_eq!(eng.voice_count(), 0);
    assert_eq!(eng.attack_step, DEFAULT_ATTACK_STEP);
    assert_eq!(eng.release_step, DEFAULT_RELEASE_STEP);
}

#[test]
fn note_on_beyond_capacity_is_dropped() {
    let mut eng = BeamyGlitch::new();
    for _ in 0..beamy_glitch::MAX_VOICES {
        eng.note_on(60, 100, vec![0i64]);
    }
    assert_eq!(eng.voice_count(), beamy_glitch::MAX_VOICES);
    eng.note_on(61, 100, vec![0i64]);
    assert_eq!(eng.voice_count(), beamy_glitch::MAX_VOICES);
}

#[test]
fn note_on_stacks_an_independent_voice_per_trigger() {
    let mut eng = BeamyGlitch::new();
    eng.note_on(60, 100, constant_wave(8));
    eng.note_on(60, 90, constant_wave(8));
    assert_eq!(eng.voice_count(), 2);
}

#[test]
fn note_off_releases_every_voice_of_that_pitch_only() {
    let mut eng = BeamyGlitch::new();
    eng.note_on(60, 100, constant_wave(8));
    eng.note_on(64, 100, constant_wave(8));
    eng.note_on(60, 80, constant_wave(8));
    eng.note_off(60);
    assert_eq!(eng.voice_pitch(0), 60);
    assert_eq!(eng.voice_pitch(1), 64);
    assert!(eng.voice_released(0));
    assert!(!eng.voice_released(1));
    assert!(eng.voice_released(2));
}

#[test]
fn velocity_scales_both_amplitude_and_energy() {
    let mut eng = BeamyGlitch::new();
    eng.set_attack_step(SCALE);
    // half velocity: amplitude 64/127, energy 64/127 below the knee,
    // so only the 1.5 headroom divisor applies:
    // 2 * (10^6 * 10^6 * 64) / (3 * 127 * 10^6) = 335958
    eng.note_on(60, 64, constant_wave(16));
    let (left, _) = eng.process(4);
    assert_eq!(left, vec![335_958i64; 4]);
}

#[test]
fn note_off_without_a_voice_is_a_no_op() {
    let mut eng = BeamyGlitch::new();
    eng.note_off(42);
    assert_eq!(eng.voice_count(), 0);
}

#[test]
fn attack_envelope_rises_monotonically_and_caps_at_full_scale() {
    let mut eng = BeamyGlitch::new();
    eng.note_on(69, 127, constant_wave(100));
    let mut last = 0u32;
    for _ in 0..200 {
        let _ = eng.process(1);
        let e = eng.voice_envelope(0);
        assert!(e <= SCALE);
        assert!(e >= last);
        if last < SCALE {
            // still below full scale before this step: the step must raise it
            assert!(e > last);
        }
        last = e;
    }
    assert_eq!(last, SCALE);
}

#[test]
fn release_envelope_falls_monotonically_and_stops_at_zero() {
    let mut eng = BeamyGlitch::new();
    eng.set_attack_step(SCALE);
    eng.note_on(69, 127, constant_wave(100));
    let _ = eng.process(1);
    assert_eq!(eng.voice_envelope(0), SCALE);
    eng.note_off(69);
    let mut last = SCALE;
    for _ in 0..1000 {
        let _ = eng.process(1);
        let e = eng.voice_envelope(0);
        assert!(e < last, "a released, still audible envelope must fall");
        last = e;
    }
    assert_eq!(last, 0);
}

#[test]
fn released_and_decayed_voice_is_pruned_by_the_next_block() {
    let mut eng = BeamyGlitch::new();
    eng.set_attack_step(SCALE);
    eng.set_release_step(SCALE);
    eng.note_on(69, 127, constant_wave(100));
    let _ = eng.process(4);
    eng.note_off(69);
    // the voice decays to zero inside this block but still finishes it
    let _ = eng.process(4);
    assert_eq!(eng.voice_count(), 1);
    assert_eq!(eng.voice_envelope(0), 0);
    assert!(eng.voice_released(0));
    // the next block's prune pass removes it
    let _ = eng.process(4);
    assert_eq!(eng.voice_count(), 0);
}

#[test]
fn single_full_voice_is_scaled_by_the_headroom_factor_alone() {
    let mut eng = BeamyGlitch::new();
    eng.set_attack_step(SCALE);
    eng.note_on(60, 127, constant_wave(16));
    let (left, right) = eng.process(8);
    // waveform at FULL, envelope 1, velocity 1: output = FULL / 1.5, truncated
    assert_eq!(left, vec![666_666i64; 8]);
    assert_eq!(right, left);
}

#[test]
fn two_full_voices_are_compressed_to_a_third_of_their_sum() {
    let mut eng = BeamyGlitch::new();
    eng.set_attack_step(SCALE);
    eng.note_on(60, 127, constant_wave(16));
    eng.note_on(64, 127, constant_wave(16));
    let (left, _) = eng.process(8);
    // energy 2.0 per sample: divisor 3, so the naive sum 2.0 leaves as 2/3,
    // well under two thirds of the naive unclamped sum
    assert_eq!(left, vec![666_666i64; 8]);
}

#[test]
fn quiet_voice_keeps_plain_headroom_scaling() {
    let mut eng = BeamyGlitch::new();
    eng.set_attack_step(SCALE);
    // half-amplitude waveform at full velocity: energy 1.0, no extra divisor
    eng.note_on(60, 127, vec![FULL / 2; 16]);
    let (left, _) = eng.process(4);
    assert_eq!(left, vec![333_333i64; 4]);
}

#[test]
fn voice_age_counts_rendered_samples() {
    let mut eng = BeamyGlitch::new();
    eng.note_on(60, 127, constant_wave(16));
    let _ = eng.process(24);
    let _ = eng.process(8);
    assert_eq!(eng.voice_age(0), 32);
}

#[test]
fn waveform_repeats_circularly_across_blocks() {
    let mut eng = BeamyGlitch::new();
    eng.set_attack_step(SCALE);
    let mut wave = vec![0i64; 4];
    wave[0] = FULL;
    eng.note_on(60, 127, wave);
    let (left, _) = eng.process(10);
    for (j, &x) in left.iter().enumerate() {
        if j % 4 == 0 {
            assert_eq!(x, 666_666);
        } else {
            assert_eq!(x, 0);
        }
    }
}
