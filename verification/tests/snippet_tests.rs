use beamy_glitch::snippet::{snippet_len, Snippet};

#[test]
fn length_is_ten_periods_rounded() {
    // A4 at the standard rate: round(10 * 44100 / 440) = round(1002.27) = 1002
    assert_eq!(snippet_len(44100, 440_000), 1002);
    // middle C at 261.63 Hz: 10 * 44100 / 261.63 = 1685.58 -> 1686
    assert_eq!(snippet_len(44100, 261_630), 1686);
    // exact halves round up: 10 * 48000 / 3200 = 150.0; 10 * 44100 / 441 Hz = 1000
    assert_eq!(snippet_len(44100, 441_000), 1000);
    // an absurdly high frequency rounds to zero samples and is clamped to one
    assert_eq!(snippet_len(1, 1_000_000_000_000), 1);
}

#[test]
fn empty_waveform_becomes_one_silent_sample() {
    let s = Snippet::from_samples(Vec::new());
    assert_eq!(s.data, vec![0]);
    assert_eq!(s.index, 0);
}

#[test]
fn read_without_wrap_returns_one_slice() {
    let mut s = Snippet::from_samples(vec![10, 20, 30, 40, 50]);
    let (front, back) = s.read(3);
    assert_eq!(front, &[10, 20, 30]);
    assert!(back.is_empty());
    assert_eq!(s.index, 3);
}

#[test]
fn read_with_wrap_returns_tail_then_head() {
    let mut s = Snippet::from_samples(vec![10, 20, 30, 40, 50]);
    let _ = s.read(3);
    let (front, back) = s.read(3);
    assert_eq!(front, &[40, 50]);
    assert_eq!(back, &[10]);
    assert_eq!(s.index, 1);
}

#[test]
fn read_lengths_always_sum_to_request() {
    for req in 0..=5 {
        let mut s = Snippet::from_samples(vec![1, 2, 3, 4, 5]);
        let _ = s.read(2);
        let (front, back) = s.read(req);
        assert_eq!(front.len() + back.len(), req);
        if !back.is_empty() {
            assert!(!front.is_empty());
        }
    }
}

#[test]
fn reading_a_full_cycle_returns_cursor_to_start() {
    let mut s = Snippet::from_samples(vec![7, 8, 9, 10]);
    let _ = s.read(1);
    assert_eq!(s.index, 1);
    let (front, back) = s.read(4);
    assert_eq!(front, &[8, 9, 10]);
    assert_eq!(back, &[7]);
    assert_eq!(s.index, 1);
}
