//! Per-note state: velocity, attack/release envelope, age, and the owned
//! waveform buffer.
use vstd::prelude::*;
use crate::snippet::Snippet;
use crate::SCALE;

verus! {

/// One sounding note. A voice owns its waveform exclusively; retriggering a
/// pitch creates an additional independent voice.
pub struct Voice {
    /// MIDI pitch that created the voice, `0..=127`; only used as a key.
    pub pitch: u8,
    /// Raw MIDI velocity, `0..=127`; 127 plays at full amplitude.
    pub velocity: u8,
    /// Current amplitude multiplier, `0..=SCALE` fixed point.
    pub envelope: u32,
    /// Samples rendered since creation (diagnostic only), saturating.
    pub age: u64,
    /// Set once by the matching note-off; never cleared.
    pub released: bool,
    /// The note's precomputed waveform.
    pub snippet: Snippet,
}

impl Voice {
    pub open spec fn wf(self) -> bool {
        &&& self.pitch < 128
        &&& self.velocity < 128
        &&& self.envelope <= SCALE
        &&& self.snippet.wf()
    }

    /// A voice stays in the registry until it is released and its envelope
    /// has fully decayed.
    pub open spec fn alive(self) -> bool {
        !(self.released && self.envelope == 0)
    }

    /// A fresh voice: envelope closed, not released, cursor at the start.
    pub fn new(pitch: u8, velocity: u8, snippet: Snippet) -> (v: Voice)
        requires
            pitch < 128,
            velocity < 128,
            snippet.wf(),
        ensures
            v == (Voice {
                pitch,
                velocity,
                envelope: 0u32,
                age: 0u64,
                released: false,
                snippet,
            }),
    {
        Voice { pitch, velocity, envelope: 0, age: 0, released: false, snippet }
    }
}

/// One per-sample envelope step: a released voice ramps down by
/// `release_step` and stops at zero; an unreleased voice ramps up by
/// `attack_step` and stops at full scale.
pub open spec fn spec_env_step(e: int, released: bool, attack_step: int, release_step: int) -> int {
    if released {
        if e - release_step >= 0 {
            e - release_step
        } else {
            0
        }
    } else if e < SCALE {
        if e + attack_step <= SCALE {
            e + attack_step
        } else {
            SCALE as int
        }
    } else {
        e
    }
}

/// The envelope level after `k` per-sample steps from level `e0`.
pub open spec fn spec_env_at(
    e0: int,
    released: bool,
    attack_step: int,
    release_step: int,
    k: nat,
) -> int
    decreases k,
{
    if k == 0 {
        e0
    } else {
        spec_env_step(
            spec_env_at(e0, released, attack_step, release_step, (k - 1) as nat),
            released,
            attack_step,
            release_step,
        )
    }
}

/// The envelope never leaves `[0, SCALE]`, however many steps are taken.
pub proof fn lemma_envelope_bounded(
    e0: int,
    released: bool,
    attack_step: int,
    release_step: int,
    k: nat,
)
    requires
        0 <= e0 <= SCALE,
        attack_step >= 0,
        release_step >= 0,
    ensures
        0 <= spec_env_at(e0, released, attack_step, release_step, k) <= SCALE,
    decreases k,
{
    if k > 0 {
        lemma_envelope_bounded(e0, released, attack_step, release_step, (k - 1) as nat);
    }
}

/// A voice that is never released climbs monotonically toward full scale and
/// never exceeds it; while it is still below full scale and the attack step
/// is positive, each step strictly raises it.
pub proof fn lemma_envelope_attack_monotone(
    e0: int,
    attack_step: int,
    release_step: int,
    k: nat,
)
    requires
        0 <= e0 <= SCALE,
        attack_step >= 0,
        release_step >= 0,
    ensures
        spec_env_at(e0, false, attack_step, release_step, k) <= spec_env_at(
            e0,
            false,
            attack_step,
            release_step,
            k + 1,
        ) <= SCALE,
        attack_step >= 1 && spec_env_at(e0, false, attack_step, release_step, k) < SCALE
            ==> spec_env_at(e0, false, attack_step, release_step, k) < spec_env_at(
            e0,
            false,
            attack_step,
            release_step,
            k + 1,
        ),
{
    lemma_envelope_bounded(e0, false, attack_step, release_step, k);
    lemma_envelope_bounded(e0, false, attack_step, release_step, k + 1);
}

/// A released voice falls monotonically toward silence and never goes below
/// zero; while it is still audible and the release step is positive, each
/// step strictly lowers it.
pub proof fn lemma_envelope_release_monotone(
    e0: int,
    attack_step: int,
    release_step: int,
    k: nat,
)
    requires
        0 <= e0 <= SCALE,
        attack_step >= 0,
        release_step >= 0,
    ensures
        0 <= spec_env_at(e0, true, attack_step, release_step, k + 1) <= spec_env_at(
            e0,
            true,
            attack_step,
            release_step,
            k,
        ),
        release_step >= 1 && spec_env_at(e0, true, attack_step, release_step, k) > 0
            ==> spec_env_at(e0, true, attack_step, release_step, k + 1) < spec_env_at(
            e0,
            true,
            attack_step,
            release_step,
            k,
        ),
{
    lemma_envelope_bounded(e0, true, attack_step, release_step, k);
    lemma_envelope_bounded(e0, true, attack_step, release_step, k + 1);
}

/// With any positive attack step, an unreleased envelope does reach full
/// scale: after at least `SCALE` steps it sits exactly at `SCALE`, since
/// every step below full scale raises it by at least one unit.
pub proof fn lemma_envelope_attack_reaches_full(
    e0: int,
    attack_step: int,
    release_step: int,
    k: nat,
)
    requires
        0 <= e0 <= SCALE,
        attack_step >= 1,
        release_step >= 0,
        k >= SCALE,
    ensures
        spec_env_at(e0, false, attack_step, release_step, k) == SCALE,
{
    lemma_envelope_bounded(e0, false, attack_step, release_step, k);
    lemma_envelope_attack_gains(e0, attack_step, release_step, k);
}

/// Each attack step gains at least one unit until full scale is reached.
proof fn lemma_envelope_attack_gains(e0: int, attack_step: int, release_step: int, k: nat)
    requires
        0 <= e0 <= SCALE,
        attack_step >= 1,
        release_step >= 0,
    ensures
        spec_env_at(e0, false, attack_step, release_step, k) >= e0 + k
            || spec_env_at(e0, false, attack_step, release_step, k) == SCALE,
    decreases k,
{
    if k > 0 {
        lemma_envelope_attack_gains(e0, attack_step, release_step, (k - 1) as nat);
        lemma_envelope_bounded(e0, false, attack_step, release_step, (k - 1) as nat);
    }
}

/// With any positive release step, a released envelope does reach silence:
/// after at least `SCALE` steps it sits exactly at zero, since every step
/// above zero lowers it by at least one unit.
pub proof fn lemma_envelope_release_reaches_zero(
    e0: int,
    attack_step: int,
    release_step: int,
    k: nat,
)
    requires
        0 <= e0 <= SCALE,
        attack_step >= 0,
        release_step >= 1,
        k >= SCALE,
    ensures
        spec_env_at(e0, true, attack_step, release_step, k) == 0,
{
    lemma_envelope_bounded(e0, true, attack_step, release_step, k);
    lemma_envelope_release_loses(e0, attack_step, release_step, k);
}

/// Each release step loses at least one unit until silence is reached.
proof fn lemma_envelope_release_loses(e0: int, attack_step: int, release_step: int, k: nat)
    requires
        0 <= e0 <= SCALE,
        attack_step >= 0,
        release_step >= 1,
    ensures
        spec_env_at(e0, true, attack_step, release_step, k) <= e0 - k
            || spec_env_at(e0, true, attack_step, release_step, k) == 0,
    decreases k,
{
    if k > 0 {
        lemma_envelope_release_loses(e0, attack_step, release_step, (k - 1) as nat);
        lemma_envelope_bounded(e0, true, attack_step, release_step, (k - 1) as nat);
    }
}

/// A released voice whose envelope has already reached zero stays exactly at
/// zero forever: `max(0, 0 - step)` is zero at every later sample.
pub proof fn lemma_envelope_released_at_zero_stays_zero(
    attack_step: int,
    release_step: int,
    k: nat,
)
    requires
        attack_step >= 0,
        release_step >= 0,
    ensures
        spec_env_at(0, true, attack_step, release_step, k) == 0,
    decreases k,
{
    if k > 0 {
        lemma_envelope_released_at_zero_stays_zero(attack_step, release_step, (k - 1) as nat);
    }
}

} // verus!
