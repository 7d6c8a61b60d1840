//! The voice registry and the block renderer: note events in, compressed
//! stereo fixed-point sample blocks out.
use vstd::prelude::*;
use vstd::arithmetic::div_mod::{
    lemma_add_mod_noop, lemma_div_denominator, lemma_div_is_ordered,
    lemma_div_is_ordered_by_denominator, lemma_div_multiples_vanish, lemma_div_pos_is_pos,
    lemma_mod_self_0, lemma_small_mod,
};
use crate::snippet::Snippet;
use crate::voice::{
    lemma_envelope_bounded, spec_env_at, spec_env_step, Voice,
};
use crate::{CONTRIB_MAX, DEFAULT_ATTACK_STEP, DEFAULT_RELEASE_STEP, ENERGY_UNIT, MAX_VOICES, SCALE};

verus! {

/// Envelope level a voice shows at sample offset `j` of a block: the
/// envelope is stepped once per sample, before the sample is accumulated.
pub open spec fn spec_voice_env(v: Voice, attack_step: int, release_step: int, j: int) -> int
    recommends
        j >= 0,
{
    spec_env_at(v.envelope as int, v.released, attack_step, release_step, (j + 1) as nat)
}

/// Envelope energy one voice adds at sample offset `j`: envelope level times
/// raw velocity, so that a full-envelope, full-velocity voice adds exactly
/// `ENERGY_UNIT`.
pub open spec fn spec_voice_energy(v: Voice, attack_step: int, release_step: int, j: int) -> int {
    spec_voice_env(v, attack_step, release_step, j) * v.velocity
}

/// Amplitude one voice adds at sample offset `j`: its waveform sample under
/// the cursor, scaled by the stepped envelope and by the raw velocity.
pub open spec fn spec_voice_contrib(v: Voice, attack_step: int, release_step: int, j: int) -> int {
    v.snippet.sample_at(j) * spec_voice_env(v, attack_step, release_step, j) * v.velocity
}

/// Summed envelope energy of a set of voices at sample offset `j`.
pub open spec fn spec_total_energy(vs: Seq<Voice>, attack_step: int, release_step: int, j: int) -> int
    decreases vs.len(),
{
    if vs.len() == 0 {
        0
    } else {
        spec_total_energy(vs.drop_last(), attack_step, release_step, j) + spec_voice_energy(
            vs.last(),
            attack_step,
            release_step,
            j,
        )
    }
}

/// Summed amplitude of a set of voices at sample offset `j`, before
/// compression.
pub open spec fn spec_total_contrib(vs: Seq<Voice>, attack_step: int, release_step: int, j: int) -> int
    decreases vs.len(),
{
    if vs.len() == 0 {
        0
    } else {
        spec_total_contrib(vs.drop_last(), attack_step, release_step, j) + spec_voice_contrib(
            vs.last(),
            attack_step,
            release_step,
            j,
        )
    }
}

/// The voices prune keeps, in their registry order: every voice except the
/// released ones whose envelope has fully decayed.
pub open spec fn spec_live(vs: Seq<Voice>) -> Seq<Voice>
    decreases vs.len(),
{
    if vs.len() == 0 {
        Seq::empty()
    } else if vs.last().alive() {
        spec_live(vs.drop_last()).push(vs.last())
    } else {
        spec_live(vs.drop_last())
    }
}

/// Truncating division, the rounding the sample divide uses: the quotient of
/// the magnitudes, with the sign of the numerator.
pub open spec fn spec_tdiv(a: int, b: int) -> int
    recommends
        b > 0,
{
    if a >= 0 {
        a / b
    } else {
        -((-a) / b)
    }
}

/// The soft-knee compressor: a summed sample with summed energy `e` is
/// divided by `1.5 * max(1, e / ENERGY_UNIT)`. In fixed point that is
/// `2 * acc * ENERGY_UNIT / (3 * max(ENERGY_UNIT, e) * ENERGY_UNIT)`, i.e.
/// `2 * acc / (3 * max(ENERGY_UNIT, e))`, truncated toward zero.
pub open spec fn spec_compressed(acc: int, energy: int) -> int {
    let d = if energy > ENERGY_UNIT { energy } else { ENERGY_UNIT as int };
    spec_tdiv(2 * acc, 3 * d)
}

/// The state a voice reaches after rendering `n` samples of a block: the
/// envelope stepped `n` times, the cursor advanced circularly by `n`, and
/// the age grown (saturating) by `n`.
pub open spec fn spec_advanced(v: Voice, attack_step: int, release_step: int, n: nat) -> Voice {
    Voice {
        envelope: spec_env_at(v.envelope as int, v.released, attack_step, release_step, n) as u32,
        age: if v.age + n <= u64::MAX {
            (v.age + n) as u64
        } else {
            u64::MAX
        },
        snippet: Snippet {
            index: ((v.snippet.index + n) % (v.snippet.data@.len() as int)) as usize,
            data: v.snippet.data,
        },
        ..v
    }
}

/// The polyphonic voice engine: the live voices and the two envelope rates.
pub struct BeamyGlitch {
    pub voices: Vec<Voice>,
    /// Per-sample envelope increment during attack, `SCALE` fixed point.
    pub attack_step: u32,
    /// Per-sample envelope decrement after release, `SCALE` fixed point.
    pub release_step: u32,
}

impl BeamyGlitch {
    pub open spec fn wf(self) -> bool {
        &&& self.voices@.len() <= MAX_VOICES
        &&& forall|i: int| 0 <= i < self.voices@.len() ==> (#[trigger] self.voices@[i]).wf()
    }

    /// An engine with no sounding voices and the default envelope rates.
    pub fn new() -> (e: BeamyGlitch)
        ensures
            e.wf(),
            e.voices@.len() == 0,
            e.attack_step == DEFAULT_ATTACK_STEP,
            e.release_step == DEFAULT_RELEASE_STEP,
    {
        BeamyGlitch {
            voices: Vec::new(),
            attack_step: DEFAULT_ATTACK_STEP,
            release_step: DEFAULT_RELEASE_STEP,
        }
    }

    /// Pitch of the voice at registry position `i`.
    pub fn voice_pitch(&self, i: usize) -> (p: u8)
        requires
            i < self.voices@.len(),
        ensures
            p == self.voices@[i as int].pitch,
    {
        self.voices[i].pitch
    }

    /// Sets the per-sample attack increment.
    pub fn set_attack_step(&mut self, step: u32)
        ensures
            *final(self) == (BeamyGlitch { attack_step: step, ..*old(self) }),
    {
        self.attack_step = step;
    }

    /// Sets the per-sample release decrement.
    pub fn set_release_step(&mut self, step: u32)
        ensures
            *final(self) == (BeamyGlitch { release_step: step, ..*old(self) }),
    {
        self.release_step = step;
    }

    /// Starts a new voice for `pitch` from precomputed waveform samples.
    /// Retriggering a pitch stacks an additional voice and leaves existing
    /// ones untouched; an empty sample vector becomes one silent sample. A
    /// note-on beyond the voice capacity is dropped so that mixing arithmetic
    /// stays bounded.
    pub fn note_on(&mut self, pitch: u8, velocity: u8, samples: Vec<i64>)
        requires
            old(self).wf(),
            pitch < 128,
            velocity < 128,
            forall|i: int|
                0 <= i < samples@.len() ==> -(SCALE as int) <= #[trigger] samples@[i] <= SCALE as int,
        ensures
            final(self).wf(),
            final(self).attack_step == old(self).attack_step,
            final(self).release_step == old(self).release_step,
            old(self).voices@.len() < MAX_VOICES ==> {
                &&& final(self).voices@.len() == old(self).voices@.len() + 1
                &&& final(self).voices@.drop_last() == old(self).voices@
                &&& final(self).voices@.last().pitch == pitch
                &&& final(self).voices@.last().velocity == velocity
                &&& final(self).voices@.last().envelope == 0
                &&& final(self).voices@.last().age == 0
                &&& !final(self).voices@.last().released
                &&& final(self).voices@.last().snippet.index == 0
                &&& final(self).voices@.last().snippet.data@ == (if samples@.len() == 0 {
                    seq![0i64]
                } else {
                    samples@
                })
            },
            old(self).voices@.len() >= MAX_VOICES ==> final(self).voices@ == old(self).voices@,
    {
        if self.voices.len() < MAX_VOICES {
            let snippet = Snippet::from_samples(samples);
            let voice = Voice::new(pitch, velocity, snippet);
            self.voices.push(voice);
            proof {
                assert(self.voices@.drop_last() =~= old(self).voices@);
            }
        }
    }

    /// Marks every live voice of `pitch` released; their snippets and
    /// envelopes are untouched. A note-off for a pitch with no voice is a
    /// no-op.
    pub fn note_off(&mut self, pitch: u8)
        requires
            old(self).wf(),
        ensures
            final(self).wf(),
            final(self).attack_step == old(self).attack_step,
            final(self).release_step == old(self).release_step,
            final(self).voices@.len() == old(self).voices@.len(),
            forall|i: int|
                0 <= i < old(self).voices@.len() ==> final(self).voices@[i] == (
                if old(self).voices@[i].pitch == pitch {
                    Voice { released: true, ..old(self).voices@[i] }
                } else {
                    old(self).voices@[i]
                }),
    {
        let n = self.voices.len();
        let mut i: usize = 0;
        while i < n
            invariant
                n == self.voices@.len(),
                n == old(self).voices@.len(),
                i <= n,
                self.attack_step == old(self).attack_step,
                self.release_step == old(self).release_step,
                forall|k: int|
                    0 <= k < i ==> self.voices@[k] == (
                    if old(self).voices@[k].pitch == pitch {
                        Voice { released: true, ..old(self).voices@[k] }
                    } else {
                        old(self).voices@[k]
                    }),
                forall|k: int| i <= k < n ==> self.voices@[k] == old(self).voices@[k],
            decreases n - i,
        {
            if self.voices[i].pitch == pitch {
                let v = &mut self.voices[i];
                v.released = true;
            }
            i += 1;
        }
        proof {
            assert(forall|k: int| 0 <= k < n ==> (#[trigger] self.voices@[k]).wf());
        }
    }

    /// Removes every voice that is released and fully decayed, keeping the
    /// others in order. Runs at the start of each block, so a voice that
    /// decays mid-block still renders silence to the block's end first.
    pub fn prune(&mut self)
        requires
            old(self).wf(),
        ensures
            final(self).wf(),
            final(self).attack_step == old(self).attack_step,
            final(self).release_step == old(self).release_step,
            final(self).voices@ == spec_live(old(self).voices@),
            forall|i: int|
                0 <= i < final(self).voices@.len() ==> (#[trigger] final(self).voices@[i]).alive(),
    {
        let ghost orig = self.voices@;
        let mut i: usize = 0;
        let ghost mut scanned: int = 0;
        while i < self.voices.len()
            invariant
                old(self).wf(),
                self.attack_step == old(self).attack_step,
                self.release_step == old(self).release_step,
                orig == old(self).voices@,
                0 <= scanned <= orig.len(),
                i == spec_live(orig.subrange(0, scanned)).len(),
                self.voices@ == spec_live(orig.subrange(0, scanned)) + orig.skip(scanned),
                forall|k: int|
                    0 <= k < i ==> (#[trigger] self.voices@[k]).alive(),
            decreases orig.len() - scanned,
        {
            proof {
                assert(orig.subrange(0, scanned + 1).drop_last() =~= orig.subrange(0, scanned));
                assert(orig.subrange(0, scanned + 1).last() == orig[scanned]);
                assert(self.voices@[i as int] == orig[scanned]);
            }
            let keep = {
                let v = &self.voices[i];
                !(v.released && v.envelope == 0)
            };
            if keep {
                proof {
                    assert(spec_live(orig.subrange(0, scanned + 1)) =~= spec_live(
                        orig.subrange(0, scanned),
                    ).push(orig[scanned]));
                    assert(spec_live(orig.subrange(0, scanned + 1)) + orig.skip(scanned + 1)
                        =~= self.voices@);
                }
                i += 1;
            } else {
                self.voices.remove(i);
                proof {
                    assert(spec_live(orig.subrange(0, scanned + 1)) =~= spec_live(
                        orig.subrange(0, scanned),
                    ));
                    assert(self.voices@ =~= spec_live(orig.subrange(0, scanned + 1)) + orig.skip(
                        scanned + 1,
                    ));
                }
            }
            proof {
                scanned = scanned + 1;
            }
        }
        proof {
            assert(orig.subrange(0, orig.len() as int) =~= orig);
            assert(orig.skip(orig.len() as int) =~= Seq::<Voice>::empty());
            assert(self.voices@ =~= spec_live(orig));
            lemma_live_wf(orig);
        }
    }

    /// How many voices are currently in the registry.
    pub fn voice_count(&self) -> (n: usize)
        ensures
            n == self.voices@.len(),
    {
        self.voices.len()
    }

    /// Envelope level of the voice at registry position `i`.
    pub fn voice_envelope(&self, i: usize) -> (e: u32)
        requires
            i < self.voices@.len(),
        ensures
            e == self.voices@[i as int].envelope,
    {
        self.voices[i].envelope
    }

    /// Whether the voice at registry position `i` has been released.
    pub fn voice_released(&self, i: usize) -> (r: bool)
        requires
            i < self.voices@.len(),
        ensures
            r == self.voices@[i as int].released,
    {
        self.voices[i].released
    }

    /// Samples rendered so far by the voice at registry position `i`.
    pub fn voice_age(&self, i: usize) -> (a: u64)
        requires
            i < self.voices@.len(),
        ensures
            a == self.voices@[i as int].age,
    {
        self.voices[i].age
    }

    /// Renders one block of `n` samples: prunes dead voices, mixes every
    /// remaining voice into the block while stepping its envelope once per
    /// sample, and compresses each summed sample by its summed envelope
    /// energy. Returns the two identical stereo channels; each output sample
    /// is exactly the compressed fixed-point mix, and each voice leaves the
    /// block advanced by `n` samples.
    pub fn process(&mut self, n: usize) -> (out: (Vec<i64>, Vec<i64>))
        requires
            old(self).wf(),
        ensures
            final(self).wf(),
            final(self).attack_step == old(self).attack_step,
            final(self).release_step == old(self).release_step,
            out.0@.len() == n,
            out.1@ == out.0@,
            ({
                let live = spec_live(old(self).voices@);
                let att = old(self).attack_step as int;
                let rel = old(self).release_step as int;
                &&& final(self).voices@.len() == live.len()
                &&& forall|i: int|
                    0 <= i < live.len() ==> final(self).voices@[i] == spec_advanced(
                        live[i],
                        att,
                        rel,
                        n as nat,
                    )
                &&& forall|j: int|
                    0 <= j < n ==> out.0@[j] == spec_compressed(
                        spec_total_contrib(live, att, rel, j),
                        spec_total_energy(live, att, rel, j),
                    )
            }),
            // the compressed block never clips: two thirds of full scale at most
            forall|j: int| 0 <= j < n ==> -666666 <= #[trigger] out.0@[j] <= 666666,
    {
        self.prune();
        let ghost live = self.voices@;
        let ghost att = self.attack_step as int;
        let ghost rel = self.release_step as int;
        let mut acc = zeroed_i64(n);
        let mut energy = zeroed_u64(n);
        let n_voices = self.voices.len();
        let mut k: usize = 0;
        while k < n_voices
            invariant
                self.wf(),
                self.attack_step as int == att,
                self.release_step as int == rel,
                n_voices == self.voices@.len(),
                n_voices == live.len(),
                live.len() <= MAX_VOICES,
                forall|i: int| 0 <= i < live.len() ==> (#[trigger] live[i]).wf(),
                k <= n_voices,
                forall|i: int|
                    0 <= i < k ==> self.voices@[i] == spec_advanced(live[i], att, rel, n as nat),
                forall|i: int| k <= i < n_voices ==> self.voices@[i] == live[i],
                acc@.len() == n,
                energy@.len() == n,
                forall|j: int|
                    0 <= j < n ==> acc@[j] == spec_total_contrib(
                        live.subrange(0, k as int),
                        att,
                        rel,
                        j,
                    ),
                forall|j: int|
                    0 <= j < n ==> energy@[j] == spec_total_energy(
                        live.subrange(0, k as int),
                        att,
                        rel,
                        j,
                    ),
            decreases n_voices - k,
        {
            proof {
                assert forall|i: int|
                    0 <= i < live.subrange(0, k as int).len() implies (#[trigger] live.subrange(
                    0,
                    k as int,
                )[i]).wf() by {
                    assert(live.subrange(0, k as int)[i] == live[i]);
                }
                assert forall|j: int|
                    0 <= j < n implies -(((MAX_VOICES - 1) as int) * (CONTRIB_MAX as int)) <= #[trigger] acc@[j]
                        <= ((MAX_VOICES - 1) as int) * (CONTRIB_MAX as int) by {
                    lemma_total_bounds(live.subrange(0, k as int), att, rel, j);
                }
                assert forall|j: int|
                    0 <= j < n implies #[trigger] energy@[j] <= ((MAX_VOICES - 1) as int) * (
                ENERGY_UNIT as int) by {
                    lemma_total_bounds(live.subrange(0, k as int), att, rel, j);
                }
            }
            let v = &mut self.voices[k];
            render_voice(v, self.attack_step, self.release_step, &mut acc, &mut energy);
            proof {
                assert(live.subrange(0, k + 1).drop_last() =~= live.subrange(0, k as int));
                assert(live.subrange(0, k + 1).last() == live[k as int]);
                assert forall|j: int| 0 <= j < n implies acc@[j] == spec_total_contrib(
                    live.subrange(0, k + 1),
                    att,
                    rel,
                    j,
                ) && energy@[j] == spec_total_energy(live.subrange(0, k + 1), att, rel, j) by {
                    assert(spec_total_contrib(live.subrange(0, k + 1), att, rel, j)
                        == spec_total_contrib(live.subrange(0, k as int), att, rel, j)
                        + spec_voice_contrib(live[k as int], att, rel, j));
                    assert(spec_total_energy(live.subrange(0, k + 1), att, rel, j)
                        == spec_total_energy(live.subrange(0, k as int), att, rel, j)
                        + spec_voice_energy(live[k as int], att, rel, j));
                }
            }
            k += 1;
        }
        proof {
            assert(live.subrange(0, n_voices as int) =~= live);
        }
        let mut j: usize = 0;
        while j < n
            invariant
                acc@.len() == n,
                energy@.len() == n,
                j <= n,
                self.wf(),
                forall|i: int| 0 <= i < live.len() ==> (#[trigger] live[i]).wf(),
                live.len() <= MAX_VOICES,
                att >= 0,
                rel >= 0,
                forall|jj: int|
                    0 <= jj < j ==> acc@[jj] == spec_compressed(
                        spec_total_contrib(live, att, rel, jj),
                        spec_total_energy(live, att, rel, jj),
                    ),
                forall|jj: int|
                    j <= jj < n ==> acc@[jj] == spec_total_contrib(live, att, rel, jj),
                forall|jj: int|
                    0 <= jj < n ==> energy@[jj] == spec_total_energy(live, att, rel, jj),
            decreases n - j,
        {
            proof {
                lemma_total_bounds(live, att, rel, j as int);
            }
            let a = acc[j];
            let en = energy[j];
            let compressed = compress_sample(a, en);
            acc[j] = compressed;
            j += 1;
        }
        proof {
            assert forall|jj: int| 0 <= jj < n implies -666666 <= #[trigger] acc@[jj] <= 666666 by {
                lemma_output_never_clips(live, att, rel, jj);
            }
        }
        let right = copy_block(&acc);
        (acc, right)
    }
}

/// Fills `n` zeroed accumulator slots.
fn zeroed_i64(n: usize) -> (v: Vec<i64>)
    ensures
        v@.len() == n,
        forall|j: int| 0 <= j < n ==> v@[j] == 0,
{
    let mut v: Vec<i64> = Vec::new();
    let mut i: usize = 0;
    while i < n
        invariant
            i <= n,
            v@.len() == i,
            forall|j: int| 0 <= j < i ==> v@[j] == 0,
        decreases n - i,
    {
        v.push(0);
        i += 1;
    }
    v
}

/// Fills `n` zeroed energy slots.
fn zeroed_u64(n: usize) -> (v: Vec<u64>)
    ensures
        v@.len() == n,
        forall|j: int| 0 <= j < n ==> v@[j] == 0,
{
    let mut v: Vec<u64> = Vec::new();
    let mut i: usize = 0;
    while i < n
        invariant
            i <= n,
            v@.len() == i,
            forall|j: int| 0 <= j < i ==> v@[j] == 0,
        decreases n - i,
    {
        v.push(0);
        i += 1;
    }
    v
}

/// Copies one rendered channel for the other stereo side.
fn copy_block(src: &Vec<i64>) -> (v: Vec<i64>)
    ensures
        v@ == src@,
{
    let mut v: Vec<i64> = Vec::new();
    let mut i: usize = 0;
    while i < src.len()
        invariant
            i <= src@.len(),
            v@ == src@.subrange(0, i as int),
        decreases src@.len() - i,
    {
        v.push(src[i]);
        proof {
            assert(v@ =~= src@.subrange(0, i + 1));
        }
        i += 1;
    }
    proof {
        assert(v@ =~= src@);
    }
    v
}

/// One voice's per-sample products stay far inside `i64`: the waveform
/// sample, envelope and velocity bounds cap the mixed term at `CONTRIB_MAX`
/// and the energy term at `ENERGY_UNIT`.
proof fn lemma_term_bound(s: int, e: int, vel: int)
    by (nonlinear_arith)
    requires
        -(SCALE as int) <= s <= SCALE as int,
        0 <= e <= SCALE as int,
        0 <= vel < 128,
    ensures
        -1000000000000 <= s * e <= 1000000000000,
        -(CONTRIB_MAX as int) <= s * e * vel <= CONTRIB_MAX as int,
        0 <= e * vel <= ENERGY_UNIT as int,
{
}

/// The summed mix and energy of `k` well-formed voices stay within `k` times
/// the one-voice caps.
pub proof fn lemma_total_bounds(vs: Seq<Voice>, attack_step: int, release_step: int, j: int)
    requires
        forall|i: int| 0 <= i < vs.len() ==> (#[trigger] vs[i]).wf(),
        attack_step >= 0,
        release_step >= 0,
        j >= 0,
    ensures
        -(vs.len() as int) * (CONTRIB_MAX as int) <= spec_total_contrib(
            vs,
            attack_step,
            release_step,
            j,
        ) <= (vs.len() as int) * (CONTRIB_MAX as int),
        0 <= spec_total_energy(vs, attack_step, release_step, j) <= (vs.len() as int) * (
        ENERGY_UNIT as int),
    decreases vs.len(),
{
    if vs.len() > 0 {
        assert(forall|i: int|
            0 <= i < vs.drop_last().len() ==> (#[trigger] vs.drop_last()[i]).wf());
        lemma_total_bounds(vs.drop_last(), attack_step, release_step, j);
        let v = vs.last();
        lemma_envelope_bounded(
            v.envelope as int,
            v.released,
            attack_step,
            release_step,
            (j + 1) as nat,
        );
        vstd::arithmetic::div_mod::lemma_mod_bound(
            v.snippet.index + j,
            v.snippet.data@.len() as int,
        );
        lemma_term_bound(
            v.snippet.sample_at(j),
            spec_voice_env(v, attack_step, release_step, j),
            v.velocity as int,
        );
    }
}

/// Mixes one voice additively into a block of `acc@.len()` samples, in strict
/// per-sample order: step the envelope, add `envelope * velocity` to the
/// energy slot, add `sample * envelope * velocity` to the mix slot, then
/// advance the circular cursor. Afterwards the voice is advanced by the whole
/// block length.
fn render_voice(
    v: &mut Voice,
    attack_step: u32,
    release_step: u32,
    acc: &mut Vec<i64>,
    energy: &mut Vec<u64>,
)
    requires
        old(v).wf(),
        old(acc)@.len() == old(energy)@.len(),
        forall|j: int|
            0 <= j < old(acc)@.len() ==> -(((MAX_VOICES - 1) as int) * (CONTRIB_MAX as int)) <= #[trigger] old(
                acc,
            )@[j] <= ((MAX_VOICES - 1) as int) * (CONTRIB_MAX as int),
        forall|j: int|
            0 <= j < old(energy)@.len() ==> #[trigger] old(energy)@[j] <= ((MAX_VOICES - 1) as int)
                * (ENERGY_UNIT as int),
    ensures
        final(v).wf(),
        *final(v) == spec_advanced(
            *old(v),
            attack_step as int,
            release_step as int,
            old(acc)@.len() as nat,
        ),
        final(acc)@.len() == old(acc)@.len(),
        final(energy)@.len() == old(energy)@.len(),
        forall|j: int|
            0 <= j < old(acc)@.len() ==> final(acc)@[j] == old(acc)@[j] + spec_voice_contrib(
                *old(v),
                attack_step as int,
                release_step as int,
                j,
            ),
        forall|j: int|
            0 <= j < old(energy)@.len() ==> final(energy)@[j] == old(energy)@[j]
                + spec_voice_energy(*old(v), attack_step as int, release_step as int, j),
{
    let ghost v0 = *v;
    let ghost att = attack_step as int;
    let ghost rel = release_step as int;
    let n = acc.len();
    let len = v.snippet.data.len();
    let mut e: u32 = v.envelope;
    let mut c: usize = v.snippet.index;
    proof {
        lemma_small_mod(c as nat, len as nat);
    }
    let mut j: usize = 0;
    while j < n
        invariant
            v0.wf(),
            *v == v0,
            att == attack_step as int,
            rel == release_step as int,
            n == old(acc)@.len(),
            n == old(energy)@.len(),
            len == v0.snippet.data@.len(),
            j <= n,
            e as int == spec_env_at(v0.envelope as int, v0.released, att, rel, j as nat),
            e <= SCALE,
            c < len,
            c as int == (v0.snippet.index + j) % (len as int),
            acc@.len() == n,
            energy@.len() == n,
            forall|jj: int|
                0 <= jj < j ==> acc@[jj] == old(acc)@[jj] + spec_voice_contrib(v0, att, rel, jj),
            forall|jj: int| j <= jj < n ==> acc@[jj] == old(acc)@[jj],
            forall|jj: int|
                0 <= jj < j ==> energy@[jj] == old(energy)@[jj] + spec_voice_energy(
                    v0,
                    att,
                    rel,
                    jj,
                ),
            forall|jj: int| j <= jj < n ==> energy@[jj] == old(energy)@[jj],
            forall|jj: int|
                0 <= jj < n ==> -(((MAX_VOICES - 1) as int) * (CONTRIB_MAX as int)) <= #[trigger] old(
                    acc,
                )@[jj] <= ((MAX_VOICES - 1) as int) * (CONTRIB_MAX as int),
            forall|jj: int|
                0 <= jj < n ==> #[trigger] old(energy)@[jj] <= ((MAX_VOICES - 1) as int) * (
                ENERGY_UNIT as int),
        decreases n - j,
    {
        let e_new: u32 = if v.released {
            if e >= release_step {
                e - release_step
            } else {
                0
            }
        } else if e < SCALE {
            let stepped: u64 = e as u64 + attack_step as u64;
            if stepped >= SCALE as u64 {
                SCALE
            } else {
                stepped as u32
            }
        } else {
            e
        };
        proof {
            assert(e_new as int == spec_env_step(e as int, v0.released, att, rel));
            assert(e_new as int == spec_env_at(v0.envelope as int, v0.released, att, rel, (
            j + 1) as nat));
        }
        e = e_new;
        let s: i64 = v.snippet.data[c];
        proof {
            lemma_term_bound(s as int, e as int, v.velocity as int);
            assert(v0.snippet.sample_at(j as int) == s as int);
            assert(spec_voice_env(v0, att, rel, j as int) == e as int);
        }
        let term: i64 = s * (e as i64) * (v.velocity as i64);
        let a_old = acc[j];
        acc[j] = a_old + term;
        let en_old = energy[j];
        energy[j] = en_old + (e as u64) * (v.velocity as u64);
        let ghost c_before = c;
        c = if c + 1 == len {
            0
        } else {
            c + 1
        };
        proof {
            lemma_add_mod_noop((v0.snippet.index + j) as int, 1, len as int);
            if len == 1 {
                lemma_mod_self_0(1);
                lemma_small_mod(0, 1);
            } else {
                lemma_small_mod(1, len as nat);
                if c_before + 1 == len {
                    lemma_mod_self_0(len as int);
                    lemma_small_mod(0, len as nat);
                } else {
                    lemma_small_mod((c_before + 1) as nat, len as nat);
                }
            }
        }
        j += 1;
    }
    proof {
        lemma_envelope_bounded(v0.envelope as int, v0.released, att, rel, n as nat);
    }
    v.envelope = e;
    v.snippet.index = c;
    let block: u64 = n as u64;
    v.age = if block <= u64::MAX - v.age {
        v.age + block
    } else {
        u64::MAX
    };
    proof {
        assert(*v == spec_advanced(v0, att, rel, n as nat));
    }
}

/// Compresses one summed sample by its summed envelope energy:
/// `2 * acc / (3 * max(ENERGY_UNIT, energy))`, truncated toward zero. The
/// bounds admit the largest sums `MAX_VOICES` full voices can produce.
fn compress_sample(acc: i64, energy: u64) -> (r: i64)
    requires
        -((MAX_VOICES as int) * (CONTRIB_MAX as int)) <= acc <= (MAX_VOICES as int) * (
        CONTRIB_MAX as int),
        energy <= (MAX_VOICES as int) * (ENERGY_UNIT as int),
    ensures
        r as int == spec_compressed(acc as int, energy as int),
{
    let d: u64 = if energy > ENERGY_UNIT {
        energy
    } else {
        ENERGY_UNIT
    };
    let den: u64 = 3 * d;
    if acc >= 0 {
        let num: u64 = 2 * (acc as u64);
        let q: u64 = num / den;
        proof {
            lemma_div_is_ordered_by_denominator(num as int, 1, den as int);
        }
        q as i64
    } else {
        let mag: i64 = -acc;
        let num: u64 = 2 * (mag as u64);
        let q: u64 = num / den;
        proof {
            lemma_div_is_ordered_by_denominator(num as int, 1, den as int);
        }
        -(q as i64)
    }
}

impl Default for BeamyGlitch {
    /// The same engine `new` builds: silent, with the default rates.
    fn default() -> (e: BeamyGlitch)
        ensures
            e.wf(),
            e.voices@.len() == 0,
            e.attack_step == DEFAULT_ATTACK_STEP,
            e.release_step == DEFAULT_RELEASE_STEP,
    {
        BeamyGlitch::new()
    }
}

/// Scaling a truncating division's numerator and denominator by a common
/// positive factor leaves the quotient unchanged.
pub proof fn lemma_scaled_tdiv(a: int, b: int, k: int)
    requires
        b > 0,
        k > 0,
    ensures
        spec_tdiv(a * k, b * k) == spec_tdiv(a, b),
{
    vstd::arithmetic::mul::lemma_mul_strictly_positive(b, k);
    if a >= 0 {
        vstd::arithmetic::mul::lemma_mul_nonnegative(a, k);
        lemma_div_denominator(a * k, k, b);
        lemma_div_multiples_vanish(a, k);
        vstd::arithmetic::mul::lemma_mul_is_commutative(a, k);
        vstd::arithmetic::mul::lemma_mul_is_commutative(b, k);
    } else {
        vstd::arithmetic::mul::lemma_mul_unary_negation(a, k);
        vstd::arithmetic::mul::lemma_mul_strictly_positive(-a, k);
        lemma_div_denominator((-a) * k, k, b);
        lemma_div_multiples_vanish(-a, k);
        vstd::arithmetic::mul::lemma_mul_is_commutative(-a, k);
        vstd::arithmetic::mul::lemma_mul_is_commutative(b, k);
    }
}

/// Exactly one voice active at full envelope and full velocity: its energy
/// is exactly `ENERGY_UNIT`, so the compressor applies the constant headroom
/// factor alone, and each output sample is the voice's waveform sample
/// divided by 1.5 (truncated): `2 * s / 3`.
pub proof fn lemma_compression_single_full_voice(s: int)
    ensures
        spec_compressed(s * 127000000, ENERGY_UNIT as int) == spec_tdiv(2 * s, 3),
{
    lemma_scaled_tdiv(2 * s, 3, 127000000);
}

/// Two voices at full envelope and full velocity: the summed energy is twice
/// `ENERGY_UNIT`, the divisor grows to `3`, and each output sample is only a
/// third of the naive two-voice sum — at most two thirds of either range.
pub proof fn lemma_compression_two_full_voices(s1: int, s2: int)
    ensures
        spec_compressed((s1 + s2) * 127000000, 2 * ENERGY_UNIT as int) == spec_tdiv(s1 + s2, 3),
{
    lemma_scaled_tdiv(s1 + s2, 3, 254000000);
    assert((s1 + s2) * 254000000 == 2 * ((s1 + s2) * 127000000));
}

/// Raising the summed energy at a sample never raises the compressed
/// output's magnitude: more simultaneous energy only attenuates further.
pub proof fn lemma_compression_monotone_in_energy(acc: int, e1: int, e2: int)
    requires
        0 <= e1 <= e2,
    ensures
        acc >= 0 ==> spec_compressed(acc, e2) <= spec_compressed(acc, e1),
        acc <= 0 ==> spec_compressed(acc, e1) <= spec_compressed(acc, e2),
{
    let d1 = if e1 > ENERGY_UNIT { e1 } else { ENERGY_UNIT as int };
    let d2 = if e2 > ENERGY_UNIT { e2 } else { ENERGY_UNIT as int };
    if acc >= 0 {
        lemma_div_is_ordered_by_denominator(2 * acc, 3 * d1, 3 * d2);
    } else {
        lemma_div_is_ordered_by_denominator(-(2 * acc), 3 * d1, 3 * d2);
    }
}

/// A waveform sample within full scale, scaled by a nonnegative envelope
/// and velocity, stays within `SCALE` times the energy of that envelope and
/// velocity.
proof fn lemma_term_vs_energy(s: int, e: int, vel: int)
    by (nonlinear_arith)
    requires
        -1000000 <= s <= 1000000,
        0 <= e,
        0 <= vel,
    ensures
        -1000000 * (e * vel) <= s * e * vel <= 1000000 * (e * vel),
{
}

/// The summed amplitude of well-formed voices never outruns `SCALE` times
/// their summed energy.
pub proof fn lemma_contrib_bounded_by_energy(
    vs: Seq<Voice>,
    attack_step: int,
    release_step: int,
    j: int,
)
    requires
        forall|i: int| 0 <= i < vs.len() ==> (#[trigger] vs[i]).wf(),
        attack_step >= 0,
        release_step >= 0,
        j >= 0,
    ensures
        0 <= spec_total_energy(vs, attack_step, release_step, j),
        -(SCALE as int) * spec_total_energy(vs, attack_step, release_step, j)
            <= spec_total_contrib(vs, attack_step, release_step, j) <= (SCALE as int)
            * spec_total_energy(vs, attack_step, release_step, j),
    decreases vs.len(),
{
    if vs.len() > 0 {
        assert(forall|i: int|
            0 <= i < vs.drop_last().len() ==> (#[trigger] vs.drop_last()[i]).wf());
        lemma_contrib_bounded_by_energy(vs.drop_last(), attack_step, release_step, j);
        let v = vs.last();
        lemma_envelope_bounded(
            v.envelope as int,
            v.released,
            attack_step,
            release_step,
            (j + 1) as nat,
        );
        vstd::arithmetic::div_mod::lemma_mod_bound(
            v.snippet.index + j,
            v.snippet.data@.len() as int,
        );
        lemma_term_vs_energy(
            v.snippet.sample_at(j),
            spec_voice_env(v, attack_step, release_step, j),
            v.velocity as int,
        );
        assert(spec_voice_energy(v, attack_step, release_step, j) == spec_voice_env(
            v,
            attack_step,
            release_step,
            j,
        ) * v.velocity);
        assert(spec_voice_contrib(v, attack_step, release_step, j) <= (SCALE as int)
            * spec_voice_energy(v, attack_step, release_step, j));
        assert(-(SCALE as int) * spec_voice_energy(v, attack_step, release_step, j)
            <= spec_voice_contrib(v, attack_step, release_step, j));
        assert(spec_total_contrib(vs, attack_step, release_step, j) == spec_total_contrib(
            vs.drop_last(),
            attack_step,
            release_step,
            j,
        ) + spec_voice_contrib(v, attack_step, release_step, j));
        assert(spec_total_energy(vs, attack_step, release_step, j) == spec_total_energy(
            vs.drop_last(),
            attack_step,
            release_step,
            j,
        ) + spec_voice_energy(v, attack_step, release_step, j));
        let t = spec_total_contrib(vs.drop_last(), attack_step, release_step, j);
        let en = spec_total_energy(vs.drop_last(), attack_step, release_step, j);
        let c = spec_voice_contrib(v, attack_step, release_step, j);
        let ev = spec_voice_energy(v, attack_step, release_step, j);
        assert(-(SCALE as int) * en <= t <= (SCALE as int) * en);
        assert(-(SCALE as int) * ev <= c <= (SCALE as int) * ev);
        assert(-(SCALE as int) * (en + ev) <= t + c <= (SCALE as int) * (en + ev))
            by (nonlinear_arith)
            requires
                -(SCALE as int) * en <= t <= (SCALE as int) * en,
                -(SCALE as int) * ev <= c <= (SCALE as int) * ev,
        ;
        assert(-(SCALE as int) * spec_total_energy(vs, attack_step, release_step, j)
            <= spec_total_contrib(vs, attack_step, release_step, j) <= (SCALE as int)
            * spec_total_energy(vs, attack_step, release_step, j));
    } else {
        assert(spec_total_contrib(vs, attack_step, release_step, j) == 0);
        assert(spec_total_energy(vs, attack_step, release_step, j) == 0);
    }
}

/// However many voices sound at once, a compressed output sample never
/// leaves `[-666666, 666666]` — two thirds of full scale: the compressor's
/// divisor grows with the summed energy at least as fast as the summed
/// amplitude can.
pub proof fn lemma_output_never_clips(vs: Seq<Voice>, attack_step: int, release_step: int, j: int)
    requires
        forall|i: int| 0 <= i < vs.len() ==> (#[trigger] vs[i]).wf(),
        attack_step >= 0,
        release_step >= 0,
        j >= 0,
    ensures
        -666666 <= spec_compressed(
            spec_total_contrib(vs, attack_step, release_step, j),
            spec_total_energy(vs, attack_step, release_step, j),
        ) <= 666666,
{
    lemma_contrib_bounded_by_energy(vs, attack_step, release_step, j);
    let a = spec_total_contrib(vs, attack_step, release_step, j);
    let e = spec_total_energy(vs, attack_step, release_step, j);
    let d = if e > ENERGY_UNIT { e } else { ENERGY_UNIT as int };
    assert(SCALE as int == 1000000);
    assert(ENERGY_UNIT as int == 127000000);
    assert(a <= 1000000 * e && -1000000 * e <= a);
    let m = if a >= 0 { 2 * a } else { -(2 * a) };
    assert(m <= 2000000 * e);
    if e > ENERGY_UNIT {
        lemma_div_is_ordered(m, 2000000 * e, 3 * e);
        lemma_div_denominator(2000000 * e, e, 3);
        lemma_div_multiples_vanish(2000000, e);
        vstd::arithmetic::mul::lemma_mul_is_commutative(2000000, e);
        vstd::arithmetic::mul::lemma_mul_is_commutative(3, e);
        assert((2000000 * e) / (3 * e) == 666666);
    } else {
        lemma_div_is_ordered(m, 254000000000000, 381000000);
    }
    lemma_div_pos_is_pos(m, 3 * d);
}

/// Every voice that prune keeps was well formed before, so the kept registry
/// is well formed too.
pub proof fn lemma_live_wf(vs: Seq<Voice>)
    requires
        forall|i: int| 0 <= i < vs.len() ==> (#[trigger] vs[i]).wf(),
    ensures
        spec_live(vs).len() <= vs.len(),
        forall|i: int| 0 <= i < spec_live(vs).len() ==> (#[trigger] spec_live(vs)[i]).wf(),
        forall|i: int| 0 <= i < spec_live(vs).len() ==> (#[trigger] spec_live(vs)[i]).alive(),
    decreases vs.len(),
{
    if vs.len() > 0 {
        assert(forall|i: int|
            0 <= i < vs.drop_last().len() ==> (#[trigger] vs.drop_last()[i]).wf());
        lemma_live_wf(vs.drop_last());
    }
}

} // verus!
