use beamy_glitch::engine::BeamyGlitch;
use beamy_glitch::events::{decode_event, MidiEvent};
use beamy_glitch::snippet::snippet_len;
use beamy_glitch::SCALE;

#[test]
fn note_on_message_decodes_with_pitch_and_velocity() {
    let ev = decode_event(&[0x90, 69, 127]);
    assert_eq!(ev, MidiEvent::NoteOn { pitch: 69, velocity: 127 });
    let ev = decode_event(&[0x93, 60, 1]);
    assert_eq!(ev, MidiEvent::NoteOn { pitch: 60, velocity: 1 });
}

#[test]
fn note_off_message_decodes_with_pitch() {
    let ev = decode_event(&[0x80, 69, 64]);
    assert_eq!(ev, MidiEvent::NoteOff { pitch: 69 });
    let ev = decode_event(&[0x8f, 0, 0]);
    assert_eq!(ev, MidiEvent::NoteOff { pitch: 0 });
}

#[test]
fn note_on_at_velocity_zero_is_a_note_off() {
    let ev = decode_event(&[0x90, 60, 0]);
    assert_eq!(ev, MidiEvent::NoteOff { pitch: 60 });
}

#[test]
fn other_and_malformed_payloads_are_ignored() {
    // a control-change message
    assert_eq!(decode_event(&[0xb0, 7, 100]), MidiEvent::Other);
    // a data byte where a status byte must stand
    assert_eq!(decode_event(&[0x45, 60, 100]), MidiEvent::Other);
    // a truncated note-on
    assert_eq!(decode_event(&[0x90, 60]), MidiEvent::Other);
    // a data byte with its high bit set
    assert_eq!(decode_event(&[0x90, 0x85, 100]), MidiEvent::Other);
    // empty payload
    assert_eq!(decode_event(&[]), MidiEvent::Other);
}

#[test]
fn apply_event_routes_note_on_and_note_off() {
    let mut eng = BeamyGlitch::new();
    let on = decode_event(&[0x90, 69, 100]);
    eng.apply_event(&on, vec![SCALE as i64; 8]);
    assert_eq!(eng.voice_count(), 1);
    assert!(!eng.voice_released(0));

    let off = decode_event(&[0x80, 69, 0]);
    eng.apply_event(&off, Vec::new());
    assert_eq!(eng.voice_count(), 1);
    assert!(eng.voice_released(0));

    let other = decode_event(&[0xb0, 7, 100]);
    eng.apply_event(&other, Vec::new());
    assert_eq!(eng.voice_count(), 1);
}

#[test]
fn note_on_then_immediate_note_off_renders_one_silent_block_then_dies() {
    let mut eng = BeamyGlitch::new();
    eng.note_on(64, 100, vec![SCALE as i64; 32]);
    eng.note_off(64);
    assert_eq!(eng.voice_count(), 1);
    assert!(eng.voice_released(0));
    assert_eq!(eng.voice_envelope(0), 0);
    // released at envelope zero: the first block is pruned-silent already
    let (left, right) = eng.process(16);
    assert_eq!(left, vec![0i64; 16]);
    assert_eq!(right, left);
    assert_eq!(eng.voice_count(), 0);
}

#[test]
fn full_scenario_a440_block_of_512() {
    // NoteOn(pitch 69 = A4 at 440 Hz, velocity 127) at 44100 Hz
    let len = snippet_len(44100, 440_000);
    assert_eq!(len, 1002);
    let period = len as f64 / 10.0;
    let mut samples: Vec<i64> = Vec::with_capacity(len as usize);
    for i in 0..len {
        let x = (i as f64 / period * 2.0 * std::f64::consts::PI).sin();
        samples.push((x * SCALE as f64).round() as i64);
    }
    let mut eng = BeamyGlitch::new();
    // a gentle attack that does not saturate inside the block
    eng.set_attack_step(1000);
    let ev = decode_event(&[0x90, 69, 127]);
    eng.apply_event(&ev, samples);
    let (left, right) = eng.process(512);
    assert_eq!(left.len(), 512);
    assert_eq!(right, left);
    assert!(left.iter().any(|&x| x != 0), "the block must not be silent");
    // the envelope climbed one step per sample, toward 512 * attack_step
    assert_eq!(eng.voice_envelope(0), 512 * 1000);
}
