use composer::error::ChordTheoryError;
use composer::scale::{ScaleFingerprint, ScaleType};

#[test]
fn test_scale_fingerprint_creation() {
    let major = ScaleFingerprint::major_scale();
    assert_eq!(major.semitones(), &[1, 0, 1, 0, 1, 1, 0, 1, 0, 1, 0, 1]);
    assert!(major.is_diatonic());
    assert_eq!(major.note_count(), 7);
}

#[test]
fn test_scale_fingerprint_validation() {
    let invalid = ScaleFingerprint::new([2, 0, 1, 0, 1, 1, 0, 1, 0, 1, 0, 1]);
    assert!(invalid.is_err());

    let empty = ScaleFingerprint::new([0; 12]);
    assert!(empty.is_err());

    let chromatic = ScaleFingerprint::new([1; 12]);
    assert!(chromatic.is_ok());
}

#[test]
fn test_from_slice() {
    let slice = &[1, 0, 1, 0, 1, 1, 0, 1, 0, 1, 0, 1];
    let fingerprint = ScaleFingerprint::from_slice(slice).unwrap();
    assert_eq!(fingerprint, ScaleFingerprint::major_scale());

    let short_slice = &[1, 0, 1];
    assert!(ScaleFingerprint::from_slice(short_slice).is_err());
}

#[test]
fn test_contains_chromatic() {
    let major = ScaleFingerprint::major_scale();
    assert!(major.contains_chromatic(0));
    assert!(!major.contains_chromatic(1));
    assert!(major.contains_chromatic(2));
    assert!(!major.contains_chromatic(3));
    assert!(major.contains_chromatic(4));
}

#[test]
fn test_chromatic_notes() {
    let major = ScaleFingerprint::major_scale();
    let notes = major.chromatic_notes();
    assert_eq!(notes, vec![0, 2, 4, 5, 7, 9, 11]);
}

#[test]
fn test_scale_degree_conversion() {
    let major = ScaleFingerprint::major_scale();

    assert_eq!(major.chromatic_to_scale_degree(0), Some(1));
    assert_eq!(major.chromatic_to_scale_degree(2), Some(2));
    assert_eq!(major.chromatic_to_scale_degree(1), None);

    assert_eq!(major.scale_degree_to_chromatic(1), Some(0));
    assert_eq!(major.scale_degree_to_chromatic(2), Some(2));
    assert_eq!(major.scale_degree_to_chromatic(8), None);
}

#[test]
fn test_scale_types() {
    assert_eq!(ScaleType::Major.fingerprint(), ScaleFingerprint::major_scale());
    assert_eq!(ScaleType::Minor.fingerprint(), ScaleFingerprint::minor_scale());

    assert_eq!(ScaleType::from_name("major"), Some(ScaleType::Major));
    assert_eq!(ScaleType::from_name("MAJOR"), Some(ScaleType::Major));
    assert_eq!(ScaleType::from_name("invalid"), None);

    assert_eq!(ScaleType::Major.name(), "major");
    assert_eq!(ScaleType::HarmonicMinor.name(), "harmonic_minor");
}

#[test]
fn scale_test_display() {
    let major = ScaleFingerprint::major_scale();
    let display = major.to_text();
    assert!(display.contains("C"));
    assert!(display.contains("G"));
    assert!(!display.contains("C#"));
}

#[test]
fn test_different_scales() {
    let minor = ScaleFingerprint::minor_scale();
    assert_eq!(minor.semitones(), &[1, 0, 1, 1, 0, 1, 0, 1, 1, 0, 1, 0]);
    assert!(minor.is_diatonic());

    let harmonic_minor = ScaleFingerprint::harmonic_minor_scale();
    assert_eq!(harmonic_minor.semitones(), &[1, 0, 1, 1, 0, 1, 0, 1, 1, 0, 0, 1]);
    assert!(harmonic_minor.is_diatonic());

    let chromatic = ScaleFingerprint::chromatic_scale();
    assert_eq!(chromatic.note_count(), 12);
    assert!(!chromatic.is_diatonic());
}

#[test]
fn test_scale_functionality() {
    let scales = vec![
        ("Major", ScaleFingerprint::major_scale()),
        ("Minor", ScaleFingerprint::minor_scale()),
        ("Harmonic Minor", ScaleFingerprint::harmonic_minor_scale()),
        ("Dorian", ScaleFingerprint::dorian_scale()),
        ("Chromatic", ScaleFingerprint::chromatic_scale()),
    ];

    for (name, scale) in &scales {
        println!("Testing {} scale: {}", name, scale.to_text());

        assert!(scale.note_count() > 0);
        assert!(scale.note_count() <= 12);

        let chromatic_notes = scale.chromatic_notes();
        assert_eq!(chromatic_notes.len(), scale.note_count());

        for (i, &chromatic) in chromatic_notes.iter().enumerate() {
            let scale_degree = scale.chromatic_to_scale_degree(chromatic);
            assert_eq!(scale_degree, Some((i + 1) as u8));

            if (i + 1) <= 7 {
                let back_to_chromatic = scale.scale_degree_to_chromatic((i + 1) as u8);
                assert_eq!(back_to_chromatic, Some(chromatic));
            }
        }

        for i in 0..12 {
            let expected = chromatic_notes.contains(&i);
            assert_eq!(scale.contains_chromatic(i), expected);
        }
    }
}

#[test]
fn scale_text_lists_the_notes() {
    assert_eq!(ScaleFingerprint::major_scale().to_text(), "[C, D, E, F, G, A, B]");
    let one = ScaleFingerprint::new([0, 1, 0, 0, 0, 0, 0, 0, 0, 0, 0, 0]).unwrap();
    assert_eq!(one.to_text(), "[C#]");
    assert_eq!(one.scale_degrees(), vec![1]);
    assert_eq!(ScaleFingerprint::major_scale().scale_degrees(), vec![1, 2, 3, 4, 5, 6, 7]);
}

#[test]
fn fingerprint_errors_and_defaults() {
    assert!(matches!(
        ScaleFingerprint::new([0; 12]),
        Err(ChordTheoryError::InvalidScaleFingerprint { .. })
    ));
    assert_eq!(ScaleFingerprint::default(), ScaleFingerprint::major_scale());
    assert!(!ScaleFingerprint::major_scale().contains_chromatic(12));
    assert_eq!(ScaleType::Custom(ScaleFingerprint::dorian_scale()).name(), "custom");
    assert_eq!(
        ScaleType::Custom(ScaleFingerprint::dorian_scale()).fingerprint(),
        ScaleFingerprint::dorian_scale()
    );
    assert_eq!(ScaleType::from_name("Harmonic_Minor"), Some(ScaleType::HarmonicMinor));
    assert_eq!(ScaleFingerprint::chromatic_scale().scale_degree_to_chromatic(7), Some(6));
    assert_eq!(ScaleFingerprint::chromatic_scale().chromatic_to_scale_degree(11), Some(12));
}
