//! A polyphonic voice engine: note-on/note-off events become a mixed stereo
//! stream by synthesizing a short repeating waveform per note, applying a
//! per-voice attack/release envelope, summing the voices, and compressing the
//! sum so that many overlapping voices never clip.
//!
//! All audio amplitudes and envelope levels are fixed-point values: `SCALE`
//! units stand for an amplitude of one. Waveform samples are `i64` values in
//! `[-SCALE, SCALE]`, envelopes are `u32` values in `[0, SCALE]`, and MIDI
//! velocities are raw `0..=127` values (127 is full velocity).
use vstd::prelude::*;

pub mod engine;
pub mod events;
pub mod params;
pub mod snippet;
pub mod voice;

verus! {

/// Fixed-point representation of the amplitude 1.0.
pub const SCALE: u32 = 1000000;

/// Default per-sample envelope increment while a voice attacks (0.007).
pub const DEFAULT_ATTACK_STEP: u32 = 7000;

/// Default per-sample envelope decrement after a voice is released (0.001).
pub const DEFAULT_RELEASE_STEP: u32 = 1000;

/// Most voices the registry will hold at once; a note-on beyond this is
/// dropped so that block mixing can never overflow an `i64` accumulator.
pub const MAX_VOICES: usize = 32768;

/// Accumulated energy of a single voice at full envelope and full velocity:
/// `SCALE * 127`. The compressor leaves blocks at or below this energy scaled
/// by the constant headroom factor alone.
pub const ENERGY_UNIT: u64 = 127000000;

/// Largest magnitude one voice can add to an output sample in one step:
/// `SCALE * SCALE * 127`.
pub const CONTRIB_MAX: i64 = 127000000000000;

} // verus!
