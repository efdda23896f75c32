use composer::config::musical;
use composer::constants::{
    alteration_offset, figured_bass, harmonic_function_degrees, quality_symbol_seventh,
    quality_symbol_triad, scale_degree_function, voice_leading_penalty, LOWER_CASE_NUMERALS,
    UPPER_CASE_NUMERALS, VALID_ADD_TONES, VALID_ALTERATIONS, VALID_OMIT_TONES,
    VALID_SUSPENSIONS,
};

#[test]
fn test_roman_numerals() {
    assert_eq!(UPPER_CASE_NUMERALS.len(), 7);
    assert_eq!(LOWER_CASE_NUMERALS.len(), 7);
    assert_eq!(UPPER_CASE_NUMERALS[0], "I");
    assert_eq!(LOWER_CASE_NUMERALS[0], "i");
}

#[test]
fn test_figured_bass() {
    let triads = figured_bass(5).unwrap();
    assert_eq!(triads, vec!["", "6", "64"]);

    let sevenths = figured_bass(7).unwrap();
    assert_eq!(sevenths, vec!["7", "65", "43", "42"]);
}

#[test]
fn test_quality_symbols() {
    assert_eq!(quality_symbol_triad("minor_flat5"), Some("°"));
    assert_eq!(quality_symbol_seventh("major7"), Some("maj7"));
}

#[test]
fn test_alteration_map() {
    assert_eq!(alteration_offset("#5"), Some(1));
    assert_eq!(alteration_offset("b9"), Some(-3));
}

#[test]
fn test_harmonic_functions() {
    let tonic = harmonic_function_degrees("tonic").unwrap();
    assert_eq!(tonic, vec![1, 6, 3]);
}

#[test]
fn test_scale_degree_functions() {
    assert_eq!(scale_degree_function(1), Some("tonic"));
    assert_eq!(scale_degree_function(5), Some("dominant"));
}

#[test]
fn test_chord_types() {
    assert_eq!(&musical().chord_types, &[5, 7, 9, 11, 13]);
}

#[test]
fn test_valid_constants() {
    assert_eq!(VALID_ALTERATIONS.len(), 6);
    assert_eq!(VALID_SUSPENSIONS, [2, 4]);
    assert_eq!(VALID_ADD_TONES, [4, 6, 9]);
    assert_eq!(VALID_OMIT_TONES, [3, 5]);
}

#[test]
fn tables_have_no_other_entries() {
    assert_eq!(figured_bass(6), None);
    assert_eq!(figured_bass(13), Some(vec!["13"]));
    assert_eq!(quality_symbol_triad("major"), Some(""));
    assert_eq!(quality_symbol_triad("unknown"), None);
    assert_eq!(quality_symbol_seventh("half_diminished7"), Some("ø7"));
    assert_eq!(alteration_offset("b13"), Some(-5));
    assert_eq!(alteration_offset("x"), None);
    assert_eq!(harmonic_function_degrees("dominant"), Some(vec![5, 7]));
    assert_eq!(harmonic_function_degrees("other"), None);
    assert_eq!(scale_degree_function(0), None);
    assert_eq!(scale_degree_function(7), Some("leading_tone"));
    assert_eq!(voice_leading_penalty("parallel_fifths").unwrap().micros, 10_000_000);
    assert_eq!(voice_leading_penalty("none"), None);
}
