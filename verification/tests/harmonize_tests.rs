use composer::chord::Chord;
use composer::engine::{
    generate_bass_harmonization, AiEngine, AiEngineConfig, BassHarmonizationOptions, BassStyle,
};
use composer::error::AiError;
use composer::fixed::Fixed;
use composer::harmonize::bass_note_step;
use composer::suggestions::{ChordProgressionSuggester, ChordSuggestion};
use std::time::Instant;

fn f(x: Fixed) -> f64 {
    x.micros as f64 / 1e6
}

#[test]
fn test_basic_bass_harmonization() {
    let mut suggester = ChordProgressionSuggester::new();

    let result = suggester.get_magic_bass_solutions("C", "major", 5);

    assert!(result.is_ok());
    let suggestions = result.unwrap();

    assert!(suggestions.len() <= 5, "Should respect limit parameter");

    for suggestion in &suggestions {
        assert!(
            f(suggestion.confidence) >= 0.0 && f(suggestion.confidence) <= 1.0,
            "Confidence should be between 0.0 and 1.0"
        );
        assert!(!suggestion.reasoning.is_empty(), "Should provide reasoning");
    }
}

#[test]
fn test_bass_note_conversion() {
    let suggester = ChordProgressionSuggester::new();

    assert_eq!(suggester.parse_bass_note("C").unwrap(), 0);
    assert_eq!(suggester.parse_bass_note("F#").unwrap(), 6);
    assert_eq!(suggester.parse_bass_note("Gb").unwrap(), 6);
    assert_eq!(suggester.parse_bass_note("B").unwrap(), 11);

    assert!(suggester.parse_bass_note("H").is_err());
}

#[test]
fn test_frequency_complexity_weighting() {
    let mut suggester = ChordProgressionSuggester::new();

    let result = suggester.get_magic_bass_solutions("C", "major", 10);
    assert!(result.is_ok());

    let suggestions = result.unwrap();

    for suggestion in &suggestions {
        assert!(f(suggestion.frequency_score) >= 0.0 && f(suggestion.frequency_score) <= 1.0);
        assert!(f(suggestion.theory_score) >= 0.0 && f(suggestion.theory_score) <= 1.0);
    }
}

#[test]
fn test_scale_compatibility_filtering() {
    let mut suggester = ChordProgressionSuggester::new();

    let major_result = suggester.get_magic_bass_solutions("C", "major", 5);
    let minor_result = suggester.get_magic_bass_solutions("C", "minor", 5);

    assert!(major_result.is_ok());
    assert!(minor_result.is_ok());

    let major_suggestions = major_result.unwrap();
    let minor_suggestions = minor_result.unwrap();

    assert!(!major_suggestions.is_empty());
    assert!(!minor_suggestions.is_empty());
}

#[test]
fn test_slash_chord_recognition() {
    let mut suggester = ChordProgressionSuggester::new();

    let result = suggester.get_magic_bass_solutions("E", "major", 5);

    assert!(result.is_ok());
    let suggestions = result.unwrap();

    for suggestion in &suggestions {
        assert!(f(suggestion.confidence) > 0.0);
    }
}

#[test]
fn test_bass_harmonization_performance() {
    let mut suggester = ChordProgressionSuggester::new();

    let start = Instant::now();
    let _result = suggester.get_magic_bass_solutions("G", "major", 10);
    let elapsed = start.elapsed();

    assert!(
        elapsed.as_millis() < 100,
        "Bass harmonization should be fast: {}ms",
        elapsed.as_millis()
    );
}

#[test]
fn test_bass_harmonization_edge_cases() {
    let mut suggester = ChordProgressionSuggester::new();

    let _result = suggester.get_magic_bass_solutions("C", "", 5);

    let result = suggester.get_magic_bass_solutions("C", "major", 0);
    assert!(result.is_ok());
    let suggestions = result.unwrap();
    assert!(
        suggestions.is_empty(),
        "Zero limit should return no suggestions"
    );

    let result = suggester.get_magic_bass_solutions("C", "major", 1000);
    assert!(result.is_ok());
}

#[test]
fn test_chromatic_bass_notes() {
    let mut suggester = ChordProgressionSuggester::new();

    let notes = [
        "C", "C#", "D", "D#", "E", "F", "F#", "G", "G#", "A", "A#", "B",
    ];

    for note in &notes {
        let result = suggester.get_magic_bass_solutions(note, "major", 3);
        assert!(result.is_ok(), "Should handle bass note: {}", note);

        let suggestions = result.unwrap();
        assert!(
            suggestions.len() <= 3,
            "Should respect limit for note: {}",
            note
        );
    }
}

#[test]
fn test_bass_complexity_scoring() {
    let mut suggester = ChordProgressionSuggester::new();

    let result = suggester.get_magic_bass_solutions("C", "major", 10);
    assert!(result.is_ok());

    let suggestions = result.unwrap();

    for suggestion in &suggestions {
        let complexity = match suggestion.chord.chord_type {
            5 => 1.0,
            7 => 2.0,
            9 => 3.0,
            _ => 4.0,
        };

        let expected_theory_score = 1.0 - complexity / 10.0;
        assert!(
            (f(suggestion.theory_score) - expected_theory_score).abs() < 0.1,
            "Theory score should reflect complexity appropriately"
        );
    }
}

#[test]
fn test_bit_mask_conversion() {
    let mut suggester = ChordProgressionSuggester::new();

    let scale_degree_bits = 0b1010100;

    let result = suggester.get_harmonize_by_sd_solutions(scale_degree_bits, "major", 5);

    assert!(result.is_ok());
    let suggestions = result.unwrap();

    assert!(suggestions.len() <= 5, "Should respect limit parameter");

    for suggestion in &suggestions {
        assert!(f(suggestion.confidence) >= 0.0 && f(suggestion.confidence) <= 1.0);
        assert!(!suggestion.reasoning.is_empty());
    }
}

#[test]
fn test_multi_factor_scoring() {
    let mut suggester = ChordProgressionSuggester::new();

    let scale_degree_bits = 0b1000001;

    let result = suggester.get_harmonize_by_sd_solutions(scale_degree_bits, "major", 10);

    assert!(result.is_ok());
    let suggestions = result.unwrap();

    for suggestion in &suggestions {
        assert!(
            f(suggestion.frequency_score) >= 0.0 && f(suggestion.frequency_score) <= 1.0,
            "Frequency score should be normalized: {}",
            f(suggestion.frequency_score)
        );
        assert!(
            f(suggestion.theory_score) >= 0.0 && f(suggestion.theory_score) <= 1.0,
            "Theory score should be normalized: {}",
            f(suggestion.theory_score)
        );
        assert!(
            f(suggestion.weighted_score) >= 0.0 && f(suggestion.weighted_score) <= 1.0,
            "Weighted score should be normalized: {}",
            f(suggestion.weighted_score)
        );
    }
}

#[test]
fn test_chromatic_extension_support() {
    let mut suggester = ChordProgressionSuggester::new();

    let chromatic_bits = 0b111111111111;

    let result = suggester.get_harmonize_by_sd_solutions(chromatic_bits, "major", 5);

    assert!(result.is_ok());
    let suggestions = result.unwrap();

    for suggestion in &suggestions {
        assert!(
            f(suggestion.confidence) > 0.0,
            "Should provide valid harmonizations"
        );
    }
}

#[test]
fn test_enharmonic_equivalent_handling() {
    let mut suggester = ChordProgressionSuggester::new();

    let bits1 = 0b0000010;
    let bits2 = 0b0000010;

    let result1 = suggester.get_harmonize_by_sd_solutions(bits1, "major", 5);
    let result2 = suggester.get_harmonize_by_sd_solutions(bits2, "major", 5);

    assert!(result1.is_ok());
    assert!(result2.is_ok());

    let suggestions1 = result1.unwrap();
    let suggestions2 = result2.unwrap();

    assert_eq!(
        suggestions1.len(),
        suggestions2.len(),
        "Enharmonic equivalents should produce same results"
    );
}

#[test]
fn test_set_operations_efficiency() {
    let mut suggester = ChordProgressionSuggester::new();

    let complex_bits = 0b101010101010;

    let start = Instant::now();
    let result = suggester.get_harmonize_by_sd_solutions(complex_bits, "major", 10);
    let elapsed = start.elapsed();

    assert!(result.is_ok());

    assert!(
        elapsed.as_millis() < 100,
        "Complex scale degree matching should be efficient: {}ms",
        elapsed.as_millis()
    );
}

#[test]
fn test_empty_scale_degrees() {
    let mut suggester = ChordProgressionSuggester::new();

    let empty_bits = 0b000000000000;

    let result = suggester.get_harmonize_by_sd_solutions(empty_bits, "major", 5);

    assert!(result.is_err());
    if let Err(error) = result {
        assert!(
            error.to_text().contains("No scale degrees"),
            "Should validate that scale degrees are specified"
        );
    }
}

#[test]
fn test_single_scale_degree() {
    let mut suggester = ChordProgressionSuggester::new();

    let single_bit = 0b0000001;

    let result = suggester.get_harmonize_by_sd_solutions(single_bit, "major", 5);

    assert!(result.is_ok());
    let suggestions = result.unwrap();

    assert!(
        !suggestions.is_empty(),
        "Should harmonize single scale degree"
    );

    for suggestion in &suggestions {
        assert_eq!(
            suggestion.chord.root, 1,
            "Single degree harmonization should use that root"
        );
    }
}

#[test]
fn test_multiple_scale_degrees() {
    let mut suggester = ChordProgressionSuggester::new();

    let triad_bits = 0b0010101;

    let result = suggester.get_harmonize_by_sd_solutions(triad_bits, "major", 10);

    assert!(result.is_ok());
    let suggestions = result.unwrap();

    assert!(
        !suggestions.is_empty(),
        "Should harmonize multiple scale degrees"
    );

    for suggestion in &suggestions {
        assert!(
            f(suggestion.weighted_score) > 0.0,
            "Should have positive score for matching degrees"
        );
    }
}

#[test]
fn test_scoring_formula_validation() {
    let mut suggester = ChordProgressionSuggester::new();

    let scale_degree_bits = 0b0000101;

    let result = suggester.get_harmonize_by_sd_solutions(scale_degree_bits, "major", 5);

    assert!(result.is_ok());
    let suggestions = result.unwrap();

    for suggestion in &suggestions {
        assert!(f(suggestion.frequency_score) >= 0.0 && f(suggestion.frequency_score) <= 1.0);
        assert!(f(suggestion.context_score) >= 0.0 && f(suggestion.context_score) <= 1.0);
        assert!(f(suggestion.theory_score) >= 0.0 && f(suggestion.theory_score) <= 1.0);
        assert!(f(suggestion.weighted_score) >= 0.0 && f(suggestion.weighted_score) <= 1.0);

        let _expected_min = f(suggestion.frequency_score) * 0.3;
        let _expected_max =
            (f(suggestion.frequency_score) + f(suggestion.theory_score) + 1.0) * 0.3 + 0.4;

        assert!(
            f(suggestion.weighted_score) >= 0.0,
            "Weighted score should be at least 0.0"
        );
        assert!(
            f(suggestion.weighted_score) <= 1.0,
            "Weighted score should be at most 1.0"
        );
    }
}

#[test]
fn test_bits_to_scale_degrees_conversion() {
    let suggester = ChordProgressionSuggester::new();

    let bits = 0b1010101010101;
    let degrees = suggester.bits_to_scale_degrees(bits);

    let expected_degrees = vec![1, 3, 5, 7, 9, 11, 13];
    assert_eq!(degrees.len(), expected_degrees.len());

    for (i, &degree) in degrees.iter().enumerate() {
        assert_eq!(
            degree, expected_degrees[i],
            "Bit {} should convert to degree {}",
            i, expected_degrees[i]
        );
    }
}

#[test]
fn test_bass_harmonization_styles() {
    let config = AiEngineConfig::default();
    let mut engine = AiEngine::new(config);

    engine.initialize(vec![]).unwrap();

    let progression = vec![Chord::new(1, 5).unwrap(), Chord::new(5, 7).unwrap()];

    for style in [BassStyle::Root, BassStyle::Alternating, BassStyle::Walking] {
        let options = BassHarmonizationOptions {
            style,
            complexity: Fixed { micros: 500_000 },
            enable_walking: false,
            rhythm_pattern: None,
        };

        let result = engine.harmonize_bass_line(&progression, &options);
        assert!(result.is_ok());

        let harmonization = result.unwrap();
        assert!(!harmonization.bass_notes.is_empty());
        assert_eq!(harmonization.style, style);
    }
}

fn summary(suggestions: &[ChordSuggestion]) -> Vec<(u8, u8, i64)> {
    suggestions
        .iter()
        .map(|s| (s.chord.root, s.chord.chord_type, s.weighted_score.micros))
        .collect()
}

#[test]
fn note_names_in_capitals() {
    let names = [
        ("C", 0),
        ("C#", 1),
        ("DB", 1),
        ("D", 2),
        ("D#", 3),
        ("EB", 3),
        ("E", 4),
        ("F", 5),
        ("F#", 6),
        ("GB", 6),
        ("G", 7),
        ("G#", 8),
        ("AB", 8),
        ("A", 9),
        ("A#", 10),
        ("BB", 10),
        ("B", 11),
    ];
    for (name, step) in names {
        assert_eq!(bass_note_step(name), Some(step), "{}", name);
    }
    for name in ["", "c", "Db", "H", "E#", "CB", "C ", "CC"] {
        assert_eq!(bass_note_step(name), None, "{}", name);
    }
}

#[test]
fn note_names_in_any_case() {
    let suggester = ChordProgressionSuggester::new();
    assert_eq!(suggester.parse_bass_note("c#").unwrap(), 1);
    assert_eq!(suggester.parse_bass_note("bb").unwrap(), 10);
    assert_eq!(suggester.parse_bass_note("eB").unwrap(), 3);
    match suggester.parse_bass_note("Do") {
        Err(AiError::InvalidPattern { reason }) => assert_eq!(reason, "Invalid bass note: Do"),
        other => panic!("{:?}", other),
    }
}

#[test]
fn chords_over_a_bass_note_in_exact_figures() {
    let suggester = ChordProgressionSuggester::new();
    let found = suggester.magic_bass_solutions("d", 10).unwrap();
    // the ninth chord weighs a quarter, which is under the threshold
    assert_eq!(summary(&found), vec![(3, 5, 727_272), (3, 7, 545_454)]);
    let triad = &found[0];
    assert_eq!(triad.confidence.micros, 727_272);
    assert_eq!(triad.frequency_score.micros, 800_000);
    assert_eq!(triad.context_score.micros, 500_000);
    assert_eq!(triad.theory_score.micros, 900_000);
    assert_eq!(triad.pattern_info.serialized_chord, [0; 5]);
    assert_eq!(triad.pattern_info.count, 800);
    assert_eq!(triad.pattern_info.rank, 1);
    assert_eq!(triad.pattern_info.relative_count.micros, 800_000);
    assert_eq!(triad.pattern_info.weight.micros, 727_272);
    assert!(triad.pattern_info.id_list.is_empty());
    assert_eq!(triad.reasoning, "Bass note d harmonization");
    assert_eq!(found[1].pattern_info.count, 600);
    assert_eq!(found[1].theory_score.micros, 900_000);

    assert_eq!(
        summary(&suggester.magic_bass_solutions("D", 1).unwrap()),
        vec![(3, 5, 727_272)]
    );
    // the seventh degree is the highest that a chord stands on
    assert_eq!(
        summary(&suggester.magic_bass_solutions("F#", 5).unwrap()),
        vec![(7, 5, 727_272), (7, 7, 545_454)]
    );
    assert!(suggester.magic_bass_solutions("G", 5).unwrap().is_empty());
    assert!(suggester.magic_bass_solutions("B", 5).unwrap().is_empty());
    assert!(matches!(
        suggester.magic_bass_solutions("X", 5),
        Err(AiError::InvalidPattern { .. })
    ));
}

#[test]
fn degrees_of_a_mask() {
    let suggester = ChordProgressionSuggester::new();
    assert_eq!(suggester.bits_to_scale_degrees(0), Vec::<u8>::new());
    assert_eq!(suggester.bits_to_scale_degrees(1), vec![1]);
    assert_eq!(suggester.bits_to_scale_degrees(0b1_0000_0000_0000), vec![13]);
    // bits above the thirteenth are not looked at
    assert_eq!(suggester.bits_to_scale_degrees(0xFFFF_E000), Vec::<u8>::new());
    assert_eq!(
        suggester.bits_to_scale_degrees(u32::MAX),
        vec![1, 2, 3, 4, 5, 6, 7, 8, 9, 10, 11, 12, 13]
    );
}

#[test]
fn chords_for_one_degree_in_exact_figures() {
    let suggester = ChordProgressionSuggester::new();
    let found = suggester.harmonize_by_sd_solutions(0b1, 10).unwrap();
    // lookup .9, length 1, simplicity .9, popularity 1: .18 + .2 + .27 + .3
    assert_eq!(
        summary(&found),
        vec![
            (1, 5, 950_000),
            (1, 7, 790_000),
            (1, 9, 640_000),
            (1, 11, 470_000),
            (1, 13, 330_000),
        ]
    );
    let triad = &found[0];
    assert_eq!(triad.confidence.micros, 950_000);
    assert_eq!(triad.frequency_score.micros, 1_000_000);
    assert_eq!(triad.context_score.micros, 500_000);
    assert_eq!(triad.theory_score.micros, 900_000);
    assert_eq!(triad.pattern_info.count, 100);
    assert_eq!(triad.pattern_info.rank, 1);
    assert_eq!(triad.pattern_info.relative_count.micros, 1_000_000);
    assert_eq!(triad.pattern_info.weight.micros, 950_000);
    assert_eq!(triad.reasoning, "Harmonizes scale degrees [1]");
    let seventh = &found[1];
    // lookup .7, length 1, simplicity .8, popularity .7
    assert_eq!(seventh.frequency_score.micros, 700_000);
    assert_eq!(seventh.theory_score.micros, 800_000);
    assert_eq!(seventh.pattern_info.count, 70);
}

#[test]
fn chords_for_several_degrees_in_exact_figures() {
    let suggester = ChordProgressionSuggester::new();
    let found = suggester.harmonize_by_sd_solutions(0b0010101, 4).unwrap();
    assert_eq!(found[0].reasoning, "Harmonizes scale degrees [1, 3, 5]");
    assert_eq!(
        summary(&found),
        vec![
            (1, 5, 950_000),
            (5, 5, 893_000),
            (4, 5, 881_000),
            (6, 5, 839_000),
        ]
    );
    // degree 8 and above match no chord
    assert!(suggester
        .harmonize_by_sd_solutions(0b1_1111_1000_0000, 5)
        .unwrap()
        .is_empty());
    assert!(suggester.harmonize_by_sd_solutions(0b111, 0).unwrap().is_empty());
    match suggester.harmonize_by_sd_solutions(0x2000, 5) {
        Err(AiError::InvalidPattern { reason }) => {
            assert_eq!(reason, "No scale degrees specified")
        }
        other => panic!("{:?}", other),
    }
}

fn line(style: BassStyle, roots: &[u8]) -> (Vec<u8>, Vec<u32>, i64) {
    let progression: Vec<Chord> = roots
        .iter()
        .map(|&root| {
            let mut chord = Chord::new(1, 5).unwrap();
            chord.root = root;
            chord
        })
        .collect();
    let options = BassHarmonizationOptions { style, ..BassHarmonizationOptions::default() };
    let h = generate_bass_harmonization(&progression, &options);
    assert_eq!(h.style, style);
    (h.bass_notes, h.rhythm, h.confidence.micros)
}

#[test]
fn bass_lines_in_each_style() {
    assert_eq!(
        line(BassStyle::Root, &[1, 6, 4, 5]),
        (vec![1, 6, 4, 5], vec![24, 24, 24, 24], 1_000_000)
    );
    assert_eq!(
        line(BassStyle::Alternating, &[1, 6, 4, 5, 2]),
        (vec![1, 3, 4, 2, 2], vec![12, 12, 12, 12, 12], 800_000)
    );
    // from 1 to 5 the roots lie four apart, from 5 to 6 one, from 6 to 4 two
    assert_eq!(
        line(BassStyle::Walking, &[1, 5, 6, 4]),
        (vec![1, 3, 5, 6, 6, 7, 4], vec![6, 6, 6, 6, 6, 6, 6], 700_000)
    );
    assert_eq!(
        line(BassStyle::Arpeggiated, &[1, 6]),
        (vec![1, 3, 5, 6, 1, 3], vec![8, 8, 8, 8, 8, 8], 800_000)
    );
    assert_eq!(
        line(BassStyle::Rhythmic, &[2, 5]),
        (vec![2, 2, 5, 5], vec![12, 6, 12, 6], 850_000)
    );
    assert_eq!(line(BassStyle::Walking, &[]), (vec![], vec![], 700_000));
    assert_eq!(line(BassStyle::Walking, &[3]), (vec![3], vec![6], 700_000));
    assert_eq!(
        line(BassStyle::Rhythmic, &[1, 1, 1, 1, 1]).2,
        750_000
    );
    // roots that no chord has are taken as they are
    assert_eq!(
        line(BassStyle::Arpeggiated, &[255]).0,
        vec![255, 250, 252]
    );
    assert_eq!(line(BassStyle::Walking, &[255, 0]).0, vec![255, 5, 0]);
    assert_eq!(line(BassStyle::Walking, &[11, 12, 10]).0, vec![11, 0, 12, 1, 10]);
}

#[test]
fn engine_answers_harmonization_only_when_ready_and_allowed() {
    let mut engine = AiEngine::new(AiEngineConfig::default());
    let options = BassHarmonizationOptions::default();
    assert_eq!(options.style, BassStyle::Root);
    assert_eq!(options.complexity.micros, 500_000);
    assert!(matches!(
        engine.get_magic_bass_solutions("C", "major", 5),
        Err(AiError::EngineNotInitialized)
    ));
    assert!(matches!(
        engine.get_harmonize_by_sd_solutions(1, "major", 5),
        Err(AiError::EngineNotInitialized)
    ));
    assert!(matches!(
        engine.harmonize_bass_line(&[], &options),
        Err(AiError::EngineNotInitialized)
    ));
    engine.initialize(vec![]).unwrap();
    assert_eq!(
        summary(&engine.get_magic_bass_solutions("C", "major", 5).unwrap()),
        vec![(1, 5, 727_272), (1, 7, 545_454)]
    );
    assert_eq!(
        summary(&engine.get_harmonize_by_sd_solutions(0b10, "major", 2).unwrap()),
        vec![(2, 5, 812_000), (2, 7, 721_000)]
    );
    assert!(engine.harmonize_bass_line(&[], &options).unwrap().bass_notes.is_empty());
    assert_eq!(engine.get_metrics().total_requests, 3);
    assert!(engine.get_magic_bass_solutions("?", "major", 5).is_err());
    assert_eq!(engine.get_metrics().total_requests, 3);

    let mut config = AiEngineConfig::default();
    config.enable_bass_harmonization = false;
    config.enable_advanced_suggestions = false;
    engine.update_config(config).unwrap();
    assert!(matches!(
        engine.get_magic_bass_solutions("C", "major", 5),
        Err(AiError::SuggestionFailed { .. })
    ));
    assert!(matches!(
        engine.get_harmonize_by_sd_solutions(1, "major", 5),
        Err(AiError::SuggestionFailed { .. })
    ));
    assert!(matches!(
        engine.harmonize_bass_line(&[], &options),
        Err(AiError::SuggestionFailed { .. })
    ));
}
