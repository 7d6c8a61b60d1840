use beamy_glitch::params::{
    can_be_automated, format_hundredths, parameter_from_index, parameter_label, parameter_name,
    parse_ms_micros, Parameter,
};

#[test]
fn parameter_indices_are_attack_then_release() {
    assert_eq!(parameter_from_index(0), Some(Parameter::Attack));
    assert_eq!(parameter_from_index(1), Some(Parameter::Release));
    assert_eq!(parameter_from_index(2), None);
    assert_eq!(parameter_from_index(-1), None);
}

#[test]
fn parameter_names_and_labels() {
    assert_eq!(parameter_name(0), "attack");
    assert_eq!(parameter_name(1), "release");
    assert_eq!(parameter_name(7), "");
    assert_eq!(parameter_label(0), "ms");
    assert_eq!(parameter_label(1), "ms");
    assert_eq!(parameter_label(7), "");
}

#[test]
fn every_parameter_is_automatable() {
    assert!(can_be_automated(0));
    assert!(can_be_automated(1));
    assert!(can_be_automated(99));
}

#[test]
fn display_text_shows_milliseconds_with_two_decimals() {
    // the default attack of 3 ms and release of 20 ms
    assert_eq!(format_hundredths(300), b"3.00".to_vec());
    assert_eq!(format_hundredths(2000), b"20.00".to_vec());
    assert_eq!(format_hundredths(0), b"0.00".to_vec());
    assert_eq!(format_hundredths(7), b"0.07".to_vec());
    assert_eq!(format_hundredths(12345), b"123.45".to_vec());
}

#[test]
fn millisecond_text_parses_to_microseconds() {
    assert_eq!(parse_ms_micros(b"3"), Some(3000));
    assert_eq!(parse_ms_micros(b"3.5"), Some(3500));
    assert_eq!(parse_ms_micros(b"0.003"), Some(3));
    assert_eq!(parse_ms_micros(b"20.00"), Some(20000));
    assert_eq!(parse_ms_micros(b"123."), Some(123000));
    // fraction digits beyond the third are ignored
    assert_eq!(parse_ms_micros(b"1.23456"), Some(1234));
    // leading zeros are plain digits
    assert_eq!(parse_ms_micros(b"007.5"), Some(7500));
}

#[test]
fn bad_parameter_text_is_rejected() {
    assert_eq!(parse_ms_micros(b""), None);
    assert_eq!(parse_ms_micros(b".5"), None);
    assert_eq!(parse_ms_micros(b"abc"), None);
    assert_eq!(parse_ms_micros(b"1.2.3"), None);
    assert_eq!(parse_ms_micros(b"-4"), None);
    assert_eq!(parse_ms_micros(b"3,5"), None);
    // an integer part out of range
    assert_eq!(parse_ms_micros(b"10000000000000"), None);
}
