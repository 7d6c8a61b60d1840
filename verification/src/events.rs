//! Ingestion of raw MIDI channel messages into note events.
use vstd::prelude::*;
use crate::engine::BeamyGlitch;
use crate::voice::Voice;
use crate::{MAX_VOICES, SCALE};

verus! {

/// A decoded incoming event. Anything that is not a note-on or note-off of
/// a well-formed channel message — other message kinds, malformed payloads —
/// is `Other` and is dropped silently.
#[derive(Clone, Copy, PartialEq, Eq, Structural, Debug)]
pub enum MidiEvent {
    NoteOn { pitch: u8, velocity: u8 },
    NoteOff { pitch: u8 },
    Other,
}

/// What a raw MIDI byte payload decodes to: a three-byte note-on message
/// with a non-zero velocity starts a note; a note-off message — or the
/// conventional note-on at velocity zero — ends one; everything else is
/// ignored. Data bytes must have their high bit clear, as MIDI demands.
pub open spec fn spec_decoded(bytes: Seq<u8>) -> MidiEvent {
    if bytes.len() >= 3 && (bytes[0] & 0xf0) == 0x90 && bytes[1] < 0x80 && 0 < bytes[2]
        && bytes[2] < 0x80 {
        MidiEvent::NoteOn { pitch: bytes[1], velocity: bytes[2] }
    } else if bytes.len() >= 3 && bytes[1] < 0x80 && bytes[2] < 0x80 && ((bytes[0] & 0xf0) == 0x80
        || (bytes[0] & 0xf0) == 0x90) {
        MidiEvent::NoteOff { pitch: bytes[1] }
    } else {
        MidiEvent::Other
    }
}

/// Relies on wmidi's `MidiMessage::try_from` over a raw byte slice: a
/// payload whose status nibble is `0x90` with two valid data bytes parses to
/// `NoteOn` (or to `NoteOff` at velocity zero), one whose status nibble is
/// `0x80` parses to `NoteOff`, and every other payload parses to some other
/// message kind or to an error. Only the variant and its note and velocity
/// data bytes are moved out.
#[verifier::external_body]
fn decode_midi(bytes: &[u8]) -> (ev: MidiEvent)
    ensures
        ev == spec_decoded(bytes@),
{
    match wmidi::MidiMessage::try_from(bytes) {
        Ok(wmidi::MidiMessage::NoteOn(_channel, note, velocity)) => MidiEvent::NoteOn {
            pitch: u8::from(note),
            velocity: u8::from(velocity),
        },
        Ok(wmidi::MidiMessage::NoteOff(_channel, note, _velocity)) => MidiEvent::NoteOff {
            pitch: u8::from(note),
        },
        _ => MidiEvent::Other,
    }
}

/// Decodes one raw MIDI payload into a note event.
pub fn decode_event(bytes: &[u8]) -> (ev: MidiEvent)
    ensures
        ev == spec_decoded(bytes@),
        ev matches MidiEvent::NoteOn { pitch, velocity } ==> pitch < 128 && 0 < velocity < 128,
        ev matches MidiEvent::NoteOff { pitch } ==> pitch < 128,
{
    decode_midi(bytes)
}

impl BeamyGlitch {
    /// Feeds one decoded event to the registry: a note-on stacks a fresh
    /// voice built from `samples`, a note-off marks every voice of that
    /// pitch released, and anything else changes nothing. `samples` is only
    /// read for a note-on.
    pub fn apply_event(&mut self, ev: &MidiEvent, samples: Vec<i64>)
        requires
            old(self).wf(),
            ev matches MidiEvent::NoteOn { pitch, velocity } ==> pitch < 128 && velocity < 128,
            ev matches MidiEvent::NoteOff { pitch } ==> pitch < 128,
            forall|i: int|
                0 <= i < samples@.len() ==> -(SCALE as int) <= #[trigger] samples@[i] <= SCALE as int,
        ensures
            final(self).wf(),
            final(self).attack_step == old(self).attack_step,
            final(self).release_step == old(self).release_step,
            ev matches MidiEvent::NoteOn { pitch, velocity } ==> {
                &&& old(self).voices@.len() < MAX_VOICES ==> {
                    &&& final(self).voices@.len() == old(self).voices@.len() + 1
                    &&& final(self).voices@.drop_last() == old(self).voices@
                    &&& final(self).voices@.last().pitch == pitch
                    &&& final(self).voices@.last().velocity == velocity
                    &&& final(self).voices@.last().envelope == 0
                    &&& !final(self).voices@.last().released
                }
                &&& old(self).voices@.len() >= MAX_VOICES ==> final(self).voices@ == old(
                    self,
                ).voices@
            },
            ev matches MidiEvent::NoteOff { pitch } ==> {
                &&& final(self).voices@.len() == old(self).voices@.len()
                &&& forall|i: int|
                    0 <= i < old(self).voices@.len() ==> final(self).voices@[i] == (
                    if old(self).voices@[i].pitch == pitch {
                        Voice { released: true, ..old(self).voices@[i] }
                    } else {
                        old(self).voices@[i]
                    })
            },
            ev is Other ==> final(self).voices@ == old(self).voices@,
    {
        match ev {
            MidiEvent::NoteOn { pitch, velocity } => {
                self.note_on(*pitch, *velocity, samples);
            },
            MidiEvent::NoteOff { pitch } => {
                self.note_off(*pitch);
            },
            MidiEvent::Other => {},
        }
    }
}

} // verus!
