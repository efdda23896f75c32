use composer::chord::{BorrowedScale, Chord};
use composer::error::ChordTheoryError;
use composer::lists::{TagList, ToneList};
use composer::roman::{QualityType, RomanCase};
use composer::scale::ScaleFingerprint;
use composer::theory::{
    apply_borrowed_alteration, chord_letter_to_lower_case, chord_letter_to_upper_case,
    determine_chord_quality, get_chord_complexity, get_figured_bass_notation,
    get_relative_chord_graphic, is_isotonal, analyze_harmonic_function,
    get_relative_scale_degrees, get_roman_numeral_for_degree, get_scale_degree_quality,
    get_stable_scale_degrees, is_applied_chromatic_alteration, is_valid_tri_sub,
    rel_scale_degree_to_abs_scale_degree,
};

fn test_chord_c_major() -> Chord {
    Chord {
        root: 1,
        chord_type: 5,
        inversion: 0,
        applied: 0,
        adds: ToneList::new(),
        omits: ToneList::new(),
        alterations: TagList::new(),
        suspensions: ToneList::new(),
        borrowed: None,
        pedal: None,
        alternate: String::new(),
        substitutions: TagList::new(),
        is_rest: false,
        beat: None,
        duration: None,
    }
}

fn test_chord_v7() -> Chord {
    Chord { root: 5, chord_type: 7, ..test_chord_c_major() }
}

fn test_chord_applied_v7_of_v() -> Chord {
    Chord { root: 2, chord_type: 7, applied: 5, ..test_chord_c_major() }
}

#[test]
fn test_get_relative_scale_degrees_triad() {
    let chord = test_chord_c_major();
    let result = get_relative_scale_degrees(&chord).unwrap();

    assert_eq!(result.sd_numbers, vec![1, 3, 5]);
    assert_eq!(result.sd_accs, vec!["", "", ""]);
}

#[test]
fn test_get_relative_scale_degrees_seventh() {
    let chord = test_chord_v7();
    let result = get_relative_scale_degrees(&chord).unwrap();

    assert_eq!(result.sd_numbers, vec![1, 3, 5, 7]);
    assert_eq!(result.sd_accs, vec!["", "", "", ""]);
}

#[test]
fn test_get_relative_scale_degrees_inversion() {
    let mut chord = test_chord_c_major();
    chord.inversion = 1;
    let result = get_relative_scale_degrees(&chord).unwrap();

    assert_eq!(result.sd_numbers, vec![3, 5, 1]);
    assert_eq!(result.sd_accs, vec!["", "", ""]);
}

#[test]
fn test_get_relative_scale_degrees_altered() {
    let mut chord = test_chord_v7();
    chord.alterations.push("b5".to_string());
    chord.alterations.push("#9".to_string());
    let result = get_relative_scale_degrees(&chord).unwrap();

    assert_eq!(result.sd_numbers, vec![1, 3, 5, 7, 9]);
    assert_eq!(result.sd_accs, vec!["", "", "b", "", "#"]);
}

#[test]
fn test_get_relative_scale_degrees_suspended() {
    let mut chord = test_chord_c_major();
    chord.suspensions.push(4);
    let result = get_relative_scale_degrees(&chord).unwrap();

    assert_eq!(result.sd_numbers, vec![1, 4, 5]);
    assert_eq!(result.sd_accs, vec!["", "", ""]);
}

#[test]
fn test_get_relative_scale_degrees_add_omit() {
    let mut chord = test_chord_v7();
    chord.adds.push(9);
    chord.omits.push(5);
    let result = get_relative_scale_degrees(&chord).unwrap();

    assert_eq!(result.sd_numbers, vec![1, 3, 7, 9]);
    assert_eq!(result.sd_accs, vec!["", "", "", ""]);
}

#[test]
fn test_get_stable_scale_degrees_basic() {
    let chord = test_chord_c_major();
    let scale = ScaleFingerprint::major_scale();
    let result = get_stable_scale_degrees(&chord, &scale).unwrap();

    assert_eq!(result, vec!["1", "3", "5"]);
}

#[test]
fn test_get_stable_scale_degrees_rest() {
    let chord = Chord::rest();
    let scale = ScaleFingerprint::major_scale();
    let result = get_stable_scale_degrees(&chord, &scale).unwrap();

    assert_eq!(result, Vec::<String>::new());
}

#[test]
fn test_get_chord_complexity_basic() {
    let chord = test_chord_c_major();
    let complexity = get_chord_complexity(&chord, "major").unwrap();

    assert_eq!(complexity.micros as f64 / 1_000_000.0, 1.0);
}

#[test]
fn test_get_chord_complexity_seventh() {
    let chord = test_chord_v7();
    let complexity = get_chord_complexity(&chord, "major").unwrap();

    assert_eq!(complexity.micros as f64 / 1_000_000.0, 2.0);
}

#[test]
fn test_get_chord_complexity_complex() {
    let mut chord = test_chord_v7();
    chord.inversion = 1;
    chord.alterations.push("b9".to_string());
    chord.alterations.push("#11".to_string());
    let complexity = get_chord_complexity(&chord, "major").unwrap();

    assert_eq!(complexity.micros as f64 / 1_000_000.0, 3.5);
}

#[test]
fn test_is_valid_tri_sub() {
    let v7 = test_chord_v7();
    assert!(is_valid_tri_sub(&v7, "major"));

    let applied = test_chord_applied_v7_of_v();
    assert!(is_valid_tri_sub(&applied, "major"));

    let triad = test_chord_c_major();
    assert!(!is_valid_tri_sub(&triad, "major"));
}

#[test]
fn test_chord_letter_case_conversion() {
    assert_eq!(chord_letter_to_lower_case("C#"), "c#");
    assert_eq!(chord_letter_to_upper_case("bb"), "Bb");
    assert_eq!(chord_letter_to_lower_case(""), "");
    assert_eq!(chord_letter_to_upper_case("#"), "#");
}

#[test]
fn relative_degrees_of_a_full_chord() {
    let chord = Chord::new(2, 7)
        .unwrap()
        .with_applied(5)
        .unwrap()
        .with_alteration("b9")
        .unwrap()
        .with_inversion(1)
        .unwrap();
    let relative = get_relative_scale_degrees(&chord).unwrap();
    assert_eq!(relative.sd_numbers, vec![3, 5, 7, 1, 9]);
    assert_eq!(relative.sd_accs, vec!["", "", "", "", "b"]);
    assert!(relative.sd_accs.contains(&"b".to_string()));

    let scale = ScaleFingerprint::major_scale();
    let stable = get_stable_scale_degrees(&chord, &scale).unwrap();
    // each degree moves by the root and then by the applied degree; the
    // seventh of a chord applied to the fifth degree is raised
    assert_eq!(stable, vec!["1", "3", "#5", "6", "b7"]);

    let complexity = get_chord_complexity(&chord, "major").unwrap();
    assert_eq!(complexity.micros, 4_000_000);
    assert!(complexity.micros as f64 / 1_000_000.0 > 3.0);
}

#[test]
fn suspensions_and_alterations_in_order() {
    let mut chord = test_chord_v7();
    chord.suspensions.push(2);
    chord.alterations.push("b13".to_string());
    chord.alterations.push("#5".to_string());
    chord.alterations.push("b5".to_string());
    let relative = get_relative_scale_degrees(&chord).unwrap();
    assert_eq!(relative.sd_numbers, vec![1, 2, 5, 7, 13]);
    // the second alteration of the fifth takes the place of the first
    assert_eq!(relative.sd_accs, vec!["", "", "b", "", "b"]);

    let mut wrong = test_chord_c_major();
    wrong.alterations.push("b7".to_string());
    assert_eq!(
        get_relative_scale_degrees(&wrong).unwrap_err(),
        ChordTheoryError::InvalidAlteration { alteration: "b7".to_string() }
    );
    let mut odd = test_chord_c_major();
    odd.chord_type = 6;
    assert_eq!(
        get_relative_scale_degrees(&odd).unwrap_err(),
        ChordTheoryError::InvalidChordType { chord_type: 6 }
    );
    assert!(get_stable_scale_degrees(&odd, &ScaleFingerprint::major_scale()).is_err());

    let mut inverted = Chord::new(1, 13).unwrap();
    inverted.inversion = 3;
    assert_eq!(
        get_relative_scale_degrees(&inverted).unwrap().sd_numbers,
        vec![7, 9, 11, 13, 1, 3, 5]
    );
    inverted.inversion = 7;
    assert_eq!(
        get_relative_scale_degrees(&inverted).unwrap().sd_numbers,
        vec![1, 3, 5, 7, 9, 11, 13]
    );
}

#[test]
fn stable_degrees_follow_root_and_borrowed_scale() {
    let scale = ScaleFingerprint::major_scale();
    let fifth = Chord::new(5, 7).unwrap();
    assert_eq!(get_stable_scale_degrees(&fifth, &scale).unwrap(), vec!["5", "7", "2", "4"]);
    let borrowed = Chord::new(1, 5)
        .unwrap()
        .with_borrowed_scale(BorrowedScale::Named("harmonic_minor".to_string()))
        .unwrap();
    assert_eq!(get_stable_scale_degrees(&borrowed, &scale).unwrap(), vec!["1", "b3", "5"]);
    assert_eq!(
        rel_scale_degree_to_abs_scale_degree(&[1, 3], &["#".to_string()], &fifth, &scale).unwrap(),
        vec!["#5", "7"]
    );
    assert!(is_applied_chromatic_alteration(7, 5));
    assert!(!is_applied_chromatic_alteration(7, 4));
    assert_eq!(
        apply_borrowed_alteration(3, "#", &BorrowedScale::Numeric(2), &scale).unwrap(),
        "#"
    );
}

#[test]
fn qualities_and_numerals() {
    let scale = ScaleFingerprint::major_scale();
    assert_eq!(get_scale_degree_quality(1, &scale).unwrap(), QualityType::Major);
    assert_eq!(get_scale_degree_quality(6, &scale).unwrap(), QualityType::Minor);
    assert_eq!(get_scale_degree_quality(7, &scale).unwrap(), QualityType::Diminished);
    assert_eq!(
        get_scale_degree_quality(8, &scale).unwrap_err(),
        ChordTheoryError::ScaleDegreeOutOfRange { degree: 8 }
    );
    assert_eq!(get_roman_numeral_for_degree(4, RomanCase::Upper).unwrap(), "IV");
    assert_eq!(get_roman_numeral_for_degree(7, RomanCase::Lower).unwrap(), "vii");
    assert!(get_roman_numeral_for_degree(0, RomanCase::Upper).is_err());
    assert_eq!(
        determine_chord_quality(&Chord::new(1, 7).unwrap(), &scale).unwrap(),
        QualityType::MajorSeventh
    );
    assert_eq!(
        determine_chord_quality(&Chord::new(2, 7).unwrap().with_alteration("b5").unwrap(), &scale)
            .unwrap(),
        QualityType::HalfDiminished
    );
    assert_eq!(
        determine_chord_quality(&Chord::new(3, 5).unwrap().with_alteration("#5").unwrap(), &scale)
            .unwrap(),
        QualityType::Augmented
    );
    assert_eq!(
        determine_chord_quality(&Chord::new(5, 7).unwrap(), &scale).unwrap(),
        QualityType::Major
    );
    assert_eq!(
        get_figured_bass_notation(&Chord::new(5, 7).unwrap().with_inversion(1).unwrap()).unwrap(),
        "65"
    );
    assert_eq!(
        get_figured_bass_notation(&Chord::new(5, 9).unwrap().with_inversion(1).unwrap()).unwrap(),
        ""
    );
    assert_eq!(chord_letter_to_upper_case("ébène"), "Ébène");
    assert_eq!(chord_letter_to_lower_case("ß"), "ß");
    assert_eq!(get_chord_complexity(&Chord::rest(), "major").unwrap().micros, 0);
}

#[test]
fn test_get_relative_chord_graphic_basic() {
    let chord = test_chord_c_major();
    let scale = ScaleFingerprint::major_scale();
    let graphic = get_relative_chord_graphic(&chord, &scale).unwrap();

    assert_eq!(graphic.symbol, "I");
    assert!(graphic.figured_bass.is_empty());
    assert!(graphic.quality.is_empty());
}

#[test]
fn test_get_relative_chord_graphic_seventh() {
    let chord = test_chord_v7();
    let scale = ScaleFingerprint::major_scale();
    let graphic = get_relative_chord_graphic(&chord, &scale).unwrap();

    assert_eq!(graphic.symbol, "V7");
    assert_eq!(graphic.figured_bass, "7");
}

#[test]
fn test_get_relative_chord_graphic_applied() {
    let chord = test_chord_applied_v7_of_v();
    let scale = ScaleFingerprint::major_scale();
    let graphic = get_relative_chord_graphic(&chord, &scale).unwrap();

    assert_eq!(graphic.symbol, "ii7");
    assert_eq!(graphic.applied, "/V");
}

#[test]
fn graphic_of_a_rest_is_its_name() {
    let graphic =
        get_relative_chord_graphic(&Chord::rest(), &ScaleFingerprint::major_scale()).unwrap();
    assert_eq!(graphic.full_symbol(), "REST");
}

#[test]
fn graphic_with_every_part() {
    let chord = Chord::new(7, 7)
        .unwrap()
        .with_inversion(1)
        .unwrap()
        .with_alteration("b5")
        .unwrap()
        .with_alteration("b9")
        .unwrap()
        .with_suspension(4)
        .unwrap()
        .with_add(6)
        .unwrap()
        .with_omit(3)
        .unwrap()
        .with_applied(2)
        .unwrap()
        .with_borrowed_scale(BorrowedScale::Named("dorian".to_string()))
        .unwrap();
    let graphic = get_relative_chord_graphic(&chord, &ScaleFingerprint::major_scale()).unwrap();
    assert_eq!(graphic.symbol, "vii7");
    assert_eq!(graphic.quality, "\u{f8}");
    assert_eq!(graphic.figured_bass, "65");
    assert_eq!(graphic.applied, "/II");
    assert_eq!(graphic.borrowed, "dorian");
    assert_eq!(graphic.alterations.as_slice(), ["b5".to_string(), "b9".to_string()]);
    assert_eq!(graphic.suspensions.as_slice(), ["sus4".to_string()]);
    assert_eq!(graphic.adds.as_slice(), ["add6".to_string()]);
    assert_eq!(graphic.omits.as_slice(), ["omit3".to_string()]);
    assert_eq!(
        graphic.full_symbol(),
        "vii7\u{f8}65(b5)(b9)sussus4addadd6omitomit3/II[dorian]"
    );
}

#[test]
fn chord_on_a_degree_above_seven_has_no_graphic() {
    let mut chord = Chord::new(1, 5).unwrap();
    chord.root = 9;
    assert_eq!(
        get_relative_chord_graphic(&chord, &ScaleFingerprint::major_scale()),
        Err(ChordTheoryError::ScaleDegreeOutOfRange { degree: 9 })
    );
    let mut applied = Chord::new(2, 7).unwrap();
    applied.applied = 8;
    assert_eq!(
        get_relative_chord_graphic(&applied, &ScaleFingerprint::major_scale()),
        Err(ChordTheoryError::ScaleDegreeOutOfRange { degree: 8 })
    );
}

#[test]
fn chords_with_the_same_tones() {
    let scale = ScaleFingerprint::major_scale();
    let triad = Chord::new(1, 5).unwrap();
    let same = Chord::new(1, 5).unwrap();
    let inverted = Chord::new(1, 5).unwrap().with_inversion(1).unwrap();
    let other = Chord::new(4, 5).unwrap();
    assert_eq!(is_isotonal(&triad, &same, &scale), Ok(true));
    assert_eq!(is_isotonal(&triad, &other, &scale), Ok(false));
    // the tones of an inversion come in another order
    assert_eq!(is_isotonal(&triad, &inverted, &scale), Ok(false));
    assert_eq!(is_isotonal(&Chord::rest(), &Chord::rest(), &scale), Ok(true));
    assert_eq!(is_isotonal(&Chord::rest(), &triad, &scale), Ok(false));
    let mut odd = Chord::new(1, 5).unwrap();
    odd.chord_type = 6;
    assert!(is_isotonal(&odd, &triad, &scale).is_err());
    assert!(is_isotonal(&triad, &odd, &scale).is_err());
}

#[test]
fn function_of_each_root() {
    let name = |root: u8| {
        let mut chord = Chord::new(1, 5).unwrap();
        chord.root = root;
        analyze_harmonic_function(&chord, "major")
    };
    assert_eq!(name(1), "Tonic");
    assert_eq!(name(3), "Tonic");
    assert_eq!(name(6), "Tonic");
    assert_eq!(name(2), "Predominant");
    assert_eq!(name(4), "Predominant");
    assert_eq!(name(5), "Dominant");
    assert_eq!(name(7), "Dominant");
    assert_eq!(name(0), "Chromatic");
    assert_eq!(name(8), "Chromatic");
}
