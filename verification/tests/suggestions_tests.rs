use composer::chord::Chord;
use composer::chord_binary::serialize_chord;
use composer::error::AiError;
use composer::fixed::Fixed;
use composer::scale::ScaleFingerprint;
use composer::suggestions::{
    within_budget, ChordProgressionSuggester, GenreWeight, SuggestionConfig, SuggestionContext,
};
use composer::trie::{ChordProgressionTrie, PatternResult};

fn float(f: Fixed) -> f64 {
    f.micros as f64 / 1_000_000.0
}

fn fixed(x: f64) -> Fixed {
    Fixed::from_micros((x * 1_000_000.0).round() as i64)
}

fn chord(root: u8, chord_type: u8) -> Chord {
    Chord::new(root, chord_type).unwrap()
}

fn result_of(chord: &Chord, count: u32, rank: u32, relative: f64, weight: f64) -> PatternResult {
    PatternResult {
        serialized_chord: serialize_chord(chord).unwrap(),
        count,
        rank,
        relative_count: fixed(relative),
        id_list: vec![],
        weight: fixed(weight),
    }
}

#[test]
fn test_suggestion_context_default() {
    let context = SuggestionContext::default();
    assert_eq!(float(context.position_in_progression), 0.5);
    assert_eq!(float(context.target_valence), 0.0);
    assert_eq!(float(context.complexity_preference), 0.5);
    assert_eq!(context.avoid_repetition_within, 4);
}

#[test]
fn test_suggestion_config_default() {
    let config = SuggestionConfig::default();
    assert!(config.max_suggestions > 0);
    assert!(float(config.min_confidence) >= 0.0 && float(config.min_confidence) <= 1.0);
    assert_eq!(float(config.temperature), 1.0);
}

#[test]
fn test_suggester_creation() {
    let suggester = ChordProgressionSuggester::new();
    assert_eq!(float(suggester.avg_suggestion_time_ms()), 0.0);
}

#[test]
fn test_empty_pattern_error() {
    let trie = ChordProgressionTrie::new();
    let mut suggester = ChordProgressionSuggester::new();
    let context = SuggestionContext::default();
    let config = SuggestionConfig::default();

    let result = suggester.get_chord_suggestions(&trie, &[], &context, &config);
    assert!(result.is_err());

    if let Err(AiError::InvalidPattern { reason }) = result {
        assert!(reason.contains("empty"));
    } else {
        panic!("Expected InvalidPattern error");
    }
}

#[test]
fn test_repetition_avoidance() {
    let suggester = ChordProgressionSuggester::new();

    let chord = Chord::new(1, 5).unwrap();
    let mut context = SuggestionContext::default();
    context.recent_chords.push(chord.clone());
    context.avoid_repetition_within = 1;

    assert!(suggester.should_avoid_chord(&chord, &context));
}

#[test]
fn test_scoring_functions() {
    let suggester = ChordProgressionSuggester::new();

    let pattern_result = PatternResult {
        serialized_chord: [0; 5],
        count: 50,
        rank: 1,
        relative_count: fixed(0.5),
        id_list: vec![],
        weight: fixed(0.8),
    };

    let frequency_score = float(suggester.calculate_frequency_score(&pattern_result));
    assert!((0.0..=1.0).contains(&frequency_score));

    let context = SuggestionContext::default();
    let chord = Chord::new(1, 5).unwrap();
    let context_score = float(suggester.calculate_context_score(&chord, &context));
    assert!((0.0..=1.0).contains(&context_score));
}

#[test]
fn suggestions_test_cache_operations() {
    let mut suggester = ChordProgressionSuggester::new();

    let (len, _cap) = suggester.cache_stats();
    assert_eq!(len, 0);

    suggester.clear_cache();
    let (len, _cap) = suggester.cache_stats();
    assert_eq!(len, 0);
}

#[test]
fn test_weighted_score_calculation() {
    let suggester = ChordProgressionSuggester::new();
    let config = SuggestionConfig::default();

    let score =
        float(suggester.calculate_weighted_score(fixed(0.8), fixed(0.6), fixed(0.7), &config));
    assert!((0.0..=1.0).contains(&score));
}

#[test]
fn suggestions_test_confidence_calculation() {
    let suggester = ChordProgressionSuggester::new();

    let pattern_result = PatternResult {
        serialized_chord: [0; 5],
        count: 25,
        rank: 2,
        relative_count: fixed(0.25),
        id_list: vec![],
        weight: fixed(0.6),
    };

    let confidence = float(suggester.calculate_confidence(fixed(0.7), &pattern_result));
    assert!((0.0..=1.0).contains(&confidence));
}

#[test]
fn test_get_magic_chord_solutions_basic() {
    let trie = ChordProgressionTrie::new();
    let mut suggester = ChordProgressionSuggester::new();

    let previous_chords = vec![Chord::new(1, 5).unwrap()];
    let following_chords = vec![Chord::new(6, 5).unwrap()];

    let result = suggester.get_magic_chord_solutions(
        &trie,
        &previous_chords,
        &following_chords,
        "major",
        10,
    );

    assert!(result.is_ok());
    let suggestions = result.unwrap();

    for (i, suggestion) in suggestions.iter().enumerate() {
        if i > 0 {
            assert!(
                suggestion.weighted_score <= suggestions[i - 1].weighted_score,
                "Suggestions should be sorted by weight descending"
            );
        }

        assert!(
            float(suggestion.confidence) >= 0.0 && float(suggestion.confidence) <= 1.0,
            "Confidence should be between 0.0 and 1.0"
        );
        assert!(
            float(suggestion.weighted_score) >= 0.0 && float(suggestion.weighted_score) <= 1.0,
            "Weight should be between 0.0 and 1.0"
        );
    }
}

#[test]
fn test_empty_context_handling() {
    let trie = ChordProgressionTrie::new();
    let mut suggester = ChordProgressionSuggester::new();

    let result = suggester.get_magic_chord_solutions(&trie, &[], &[], "major", 10);

    assert!(result.is_ok());
    let suggestions = result.unwrap();
    assert!(suggestions.len() <= 10, "Should respect limit parameter");
}

#[test]
fn test_complex_context_weighting() {
    let trie = ChordProgressionTrie::new();
    let mut suggester = ChordProgressionSuggester::new();

    let previous_chords = vec![Chord::new(1, 5).unwrap(), Chord::new(4, 5).unwrap()];
    let following_chords = vec![Chord::new(5, 7).unwrap(), Chord::new(1, 5).unwrap()];

    let result = suggester.get_magic_chord_solutions(
        &trie,
        &previous_chords,
        &following_chords,
        "major",
        5,
    );

    assert!(result.is_ok());
    let suggestions = result.unwrap();

    for suggestion in &suggestions {
        assert!(!suggestion.reasoning.is_empty(), "Should provide reasoning");
    }
}

#[test]
fn test_statistical_strength_calculation() {
    let suggester = ChordProgressionSuggester::new();

    let weight = float(suggester.compute_weight_from_spec(2, 1, 5, 1, fixed(15.5)));
    let expected_weight = 0.6 * 0.00465;

    assert!(
        (weight - expected_weight).abs() < 0.001,
        "Weight calculation should match the formula. Expected: {}, Got: {}",
        expected_weight,
        weight
    );
}

#[test]
fn test_forward_context_bonus() {
    let suggester = ChordProgressionSuggester::new();

    let weight_forward = suggester.compute_weight_from_spec(1, 2, 4, 1, fixed(100.0));
    let weight_backward = suggester.compute_weight_from_spec(2, 1, 4, 1, fixed(100.0));

    assert!(
        weight_forward > weight_backward,
        "Forward context should have higher weight due to 1.7x bonus"
    );
}

#[test]
fn test_deduplication_logic() {
    let trie = ChordProgressionTrie::new();
    let mut suggester = ChordProgressionSuggester::new();

    let result = suggester.get_magic_chord_solutions(&trie, &[], &[], "major", 5);

    assert!(result.is_ok());
    let suggestions = result.unwrap();

    let mut unique_chords = std::collections::HashSet::new();
    for suggestion in &suggestions {
        let chord_key = (suggestion.chord.root, suggestion.chord.chord_type);
        assert!(
            unique_chords.insert(chord_key),
            "Should not have duplicate suggestions for the same chord"
        );
    }
}

#[test]
fn test_limit_validation() {
    let trie = ChordProgressionTrie::new();
    let mut suggester = ChordProgressionSuggester::new();

    let result = suggester.get_magic_chord_solutions(&trie, &[], &[], "major", 101);

    assert!(result.is_err());
    if let Err(error) = result {
        assert!(error.to_text().contains("100"), "Should validate maximum 100 suggestions");
    }
}

#[test]
fn test_pattern_length_validation() {
    let trie = ChordProgressionTrie::new();
    let mut suggester = ChordProgressionSuggester::new();

    let long_pattern: Vec<Chord> = (0..51).map(|i| Chord::new((i % 7) + 1, 5).unwrap()).collect();

    let result = suggester.get_magic_chord_solutions(&trie, &long_pattern, &[], "major", 5);

    assert!(result.is_err());
    if let Err(error) = result {
        assert!(error.to_text().contains("50"), "Should validate maximum 50 chords in pattern");
    }
}

#[test]
fn test_performance_monitoring() {
    let trie = ChordProgressionTrie::new();
    let mut suggester = ChordProgressionSuggester::new();

    let _initial_time = suggester.avg_suggestion_time_ms();

    let _result = suggester.get_magic_chord_solutions(&trie, &[], &[], "major", 5);

    let final_time = suggester.avg_suggestion_time_ms();
    assert!(float(final_time) >= 0.0, "Should track suggestion generation time");
}

#[test]
fn weight_formula_in_exact_figures() {
    let suggester = ChordProgressionSuggester::new();
    // context match 0.6, context bonus 3.0, strength 0.00465, weight 0.00279
    assert_eq!(suggester.compute_weight_from_spec(2, 1, 5, 1, fixed(15.5)).micros, 2_790);
    // forward: match 0.75, bonus 5.1, strength 0.051; backward: bonus 3.0, strength 0.03
    assert_eq!(suggester.compute_weight_from_spec(1, 2, 4, 1, fixed(100.0)).micros, 38_250);
    assert_eq!(suggester.compute_weight_from_spec(2, 1, 4, 1, fixed(100.0)).micros, 22_500);
    // an empty pattern counts as all context, and no context gives no weight
    assert_eq!(suggester.compute_weight_from_spec(0, 0, 0, 1, fixed(1.0)).micros, 0);
    assert_eq!(suggester.compute_weight_from_spec(3, 3, 0, 1, fixed(10000.0)).micros, 1_000_000);
    // the strength is capped at one
    assert_eq!(suggester.compute_weight_from_spec(1, 1, 3, 1, fixed(1.0e6)).micros, 666_667);
    // a relative frequency from the store never reaches the default threshold
    assert_eq!(suggester.compute_weight_from_spec(50, 50, 101, 1, fixed(1.0)).micros, 9_901);
}

#[test]
fn magic_solutions_pass_the_threshold_and_the_limit() {
    let mut trie = ChordProgressionTrie::new();
    for (i, root) in [4u8, 4, 4, 2, 2, 6].iter().enumerate() {
        trie.add_pattern(
            &[chord(1, 5), chord(*root, 5), chord(5, 7)],
            format!("song{}", i),
            None,
        )
        .unwrap();
    }
    trie.calculate_all_ranks();
    let mut suggester = ChordProgressionSuggester::new();
    let prev = [chord(1, 5)];
    let next = [chord(5, 7)];

    // with the default threshold of 0.3 nothing passes
    assert!(suggester.magic_chord_solutions(&trie, &prev, &next, 10).unwrap().is_empty());

    suggester.set_confidence_threshold(Fixed::from_micros(0));
    let all = suggester.magic_chord_solutions(&trie, &prev, &next, 10).unwrap();
    assert_eq!(all.len(), 3);
    // every branch ends in V7 with relative frequency 1, so all weights are
    // equal and the order is the order of the search: by count over rank
    assert!(all.iter().all(|s| s.chord == chord(5, 7)));
    assert!(all.iter().all(|s| s.weighted_score.micros == 133));
    assert_eq!(all[0].pattern_info.count, 3);
    assert_eq!(all[1].pattern_info.count, 2);
    assert_eq!(all[2].pattern_info.count, 1);
    assert_eq!(all[0].confidence, all[0].weighted_score);
    assert_eq!(all[0].context_score, all[0].weighted_score);
    assert_eq!(all[0].frequency_score.micros, 1_000_000);
    assert_eq!(all[0].theory_score.micros, 500_000);
    assert_eq!(
        all[0].reasoning,
        "limited statistical support, among top choices for this pattern and represents significant portion of pattern usage"
    );

    let gap = suggester.magic_chord_solutions(&trie, &prev, &[], 2).unwrap();
    assert_eq!(gap.len(), 2);
    assert_eq!(gap[0].chord, chord(4, 5));
    assert_eq!(gap[0].frequency_score.micros, 500_000);
    assert_eq!(gap[0].weighted_score.micros, 25);
    assert_eq!(gap[1].chord, chord(2, 5));
    assert_eq!(gap[1].weighted_score.micros, 16);

    suggester.set_confidence_threshold(Fixed::from_micros(20));
    let few = suggester.magic_chord_solutions(&trie, &prev, &[], 10).unwrap();
    assert_eq!(few.len(), 1);
    assert_eq!(few[0].chord, chord(4, 5));
    assert!(suggester.magic_chord_solutions(&trie, &prev, &[], 0).unwrap().is_empty());
}

#[test]
fn magic_solutions_refuse_what_they_cannot_search() {
    let trie = ChordProgressionTrie::new();
    let suggester = ChordProgressionSuggester::new();
    let fifty: Vec<Chord> = (0..50).map(|_| chord(1, 5)).collect();
    assert!(suggester.magic_chord_solutions(&trie, &fifty, &fifty, 100).is_ok());
    let many: Vec<Chord> = (0..51).map(|_| chord(1, 5)).collect();
    assert!(matches!(
        suggester.magic_chord_solutions(&trie, &[], &many, 5),
        Err(AiError::InvalidPattern { .. })
    ));
    let mut broken = chord(1, 5);
    broken.applied = 9;
    assert!(matches!(
        suggester.magic_chord_solutions(&trie, &[broken], &[], 5),
        Err(AiError::SuggestionFailed { .. })
    ));
}

#[test]
fn scores_in_exact_figures() {
    let s = ChordProgressionSuggester::new();
    let tonic = chord(1, 5);
    let dominant = chord(5, 7);
    let altered = chord(5, 7).with_alteration("b9").unwrap().with_alteration("#11").unwrap();

    assert_eq!(s.calculate_position_score(&tonic, fixed(0.1)).micros, 1_000_000);
    assert_eq!(s.calculate_position_score(&tonic, fixed(0.5)).micros, 600_000);
    assert_eq!(s.calculate_position_score(&dominant, fixed(0.6)).micros, 800_000);
    assert_eq!(s.calculate_position_score(&chord(2, 9), fixed(0.9)).micros, 500_000);

    assert_eq!(s.calculate_valence_score(&tonic, fixed(0.6)).micros, 1_000_000);
    assert_eq!(s.calculate_valence_score(&tonic, fixed(0.0)).micros, 700_000);
    assert_eq!(s.calculate_valence_score(&altered, fixed(0.5)).micros, 700_000);
    assert_eq!(s.calculate_valence_score(&chord(7, 5), fixed(1.0)).micros, 300_000);

    assert_eq!(s.calculate_complexity_score(&tonic, fixed(0.5)).micros, 600_000);
    assert_eq!(s.calculate_complexity_score(&altered, fixed(0.5)).micros, 1_000_000);
    assert_eq!(
        s.calculate_complexity_score(&chord(1, 13).with_add(6).unwrap(), fixed(0.0)).micros,
        50_000
    );

    assert_eq!(s.calculate_voice_leading_score(&dominant, &tonic).micros, 950_000);
    assert_eq!(s.calculate_voice_leading_score(&tonic, &chord(2, 5)).micros, 1_000_000);
    assert_eq!(s.calculate_voice_leading_score(&tonic, &dominant).micros, 700_000);
    assert_eq!(s.calculate_voice_leading_score(&Chord::rest(), &tonic).micros, 500_000);

    assert_eq!(s.calculate_harmonic_function_score(&tonic, &[]).micros, 500_000);
    assert_eq!(s.calculate_harmonic_function_score(&tonic, &[chord(5, 7)]).micros, 1_000_000);
    assert_eq!(s.calculate_harmonic_function_score(&chord(3, 5), &[chord(1, 5)]).micros, 300_000);
    assert_eq!(s.calculate_harmonic_function_score(&dominant, &[chord(2, 7)]).micros, 1_000_000);

    assert_eq!(s.calculate_resolution_score(&dominant, &[]).micros, 500_000);
    // 0.9 * 1.1 * 1.1 = 1.089: capped
    assert_eq!(s.calculate_resolution_score(&dominant, &[chord(2, 7)]).micros, 1_000_000);
    // 0.1 * 1.2 * 1.0 * 1.0
    assert_eq!(s.calculate_resolution_score(&tonic, &[chord(5, 7)]).micros, 120_000);
    // 0.4 * 1.0 * 1.2 * 1.05
    assert_eq!(
        s.calculate_resolution_score(
            &chord(4, 9).with_alteration("#11").unwrap(),
            &[chord(1, 5)]
        )
        .micros,
        504_000
    );

    let context = SuggestionContext::default();
    // 0.5 + 0.4 * 0.95 + 0.3 * 1.0 + 0.3 * 0.12 = 1.216: capped
    assert_eq!(s.calculate_theory_score(&tonic, &[chord(5, 7)], &context).micros, 1_000_000);
    // 0.5 + 0.3 * 0.5 + 0.3 * 0.5
    assert_eq!(s.calculate_theory_score(&tonic, &[], &context).micros, 800_000);
    // 0.5 + 0.2 * 0.6 + 0.2 * 0.7 + 0.1 * 0.6
    assert_eq!(s.calculate_context_score(&tonic, &context).micros, 820_000);

    let config = SuggestionConfig::default();
    // 0.8 * 0.4 + 0.6 * 0.35 + 0.7 * 0.25
    assert_eq!(
        s.calculate_weighted_score(fixed(0.8), fixed(0.6), fixed(0.7), &config).micros,
        705_000
    );
    let plain = SuggestionConfig { enable_context_weighting: false, ..config };
    assert_eq!(
        s.calculate_weighted_score(fixed(0.8), fixed(0.6), fixed(0.7), &plain).micros,
        495_000
    );
    let seen = result_of(&tonic, 25, 2, 0.25, 0.6);
    assert_eq!(s.calculate_frequency_score(&seen).micros, 25_000);
    assert_eq!(s.calculate_confidence(fixed(0.7), &seen).micros, 475_000);
    let often = result_of(&tonic, 5000, 1, 0.25, 0.6);
    assert_eq!(s.calculate_frequency_score(&often).micros, 1_000_000);
    assert_eq!(s.calculate_confidence(fixed(0.7), &often).micros, 850_000);
}

#[test]
fn genres_and_scale_in_the_context_score() {
    let s = ChordProgressionSuggester::new();
    let tonic = chord(1, 5);
    let altered = chord(5, 7).with_alteration("b9").unwrap();
    let genres = vec![
        GenreWeight { genre: "Jazz".to_string(), weight: fixed(3.0) },
        GenreWeight { genre: "pop".to_string(), weight: fixed(1.0) },
        GenreWeight { genre: "rock".to_string(), weight: fixed(-5.0) },
        GenreWeight { genre: "polka".to_string(), weight: fixed(0.0) },
    ];
    // (0.4 * 3 + 0.9 * 1) / 4
    assert_eq!(s.calculate_genre_score(&tonic, &genres).micros, 525_000);
    // (0.9 * 3 + 0.6 * 1) / 4
    assert_eq!(s.calculate_genre_score(&altered, &genres).micros, 825_000);
    assert_eq!(s.calculate_genre_score(&tonic, &vec![]).micros, 500_000);
    let blues = vec![GenreWeight { genre: "BLUES".to_string(), weight: fixed(0.5) }];
    assert_eq!(s.calculate_genre_score(&chord(5, 7), &blues).micros, 1_000_000);
    let classical = vec![GenreWeight { genre: "classical".to_string(), weight: fixed(2.0) }];
    assert_eq!(s.calculate_genre_score(&altered, &classical).micros, 650_000);
    let unknown = vec![GenreWeight { genre: "polka".to_string(), weight: fixed(2.0) }];
    assert_eq!(s.calculate_genre_score(&altered, &unknown).micros, 500_000);

    let scale = ScaleFingerprint::major_scale();
    // three degrees of seven: 0.428571
    assert_eq!(s.calculate_scale_compatibility(&tonic, &scale).micros, 428_571);
    // five degrees, one of them flat: 0.714285 - 0.1
    assert_eq!(
        s.calculate_scale_compatibility(&chord(5, 7).with_alteration("b9").unwrap(), &scale).micros,
        614_285
    );
    let mut odd = chord(1, 5);
    odd.chord_type = 6;
    assert_eq!(s.calculate_scale_compatibility(&odd, &scale).micros, 300_000);
    assert_eq!(s.calculate_scale_compatibility(&Chord::rest(), &scale).micros, 0);

    let mut context = SuggestionContext::default();
    context.scale_fingerprint = Some(scale);
    context.genre_weights = genres;
    // 0.5 + 0.3 * 0.428571 + 0.2 * 0.6 + 0.2 * 0.7 + 0.1 * 0.6 + 0.2 * 0.525 = 1.05...: capped
    assert_eq!(s.calculate_context_score(&tonic, &context).micros, 1_000_000);
    context.target_valence = fixed(-1.0);
    context.complexity_preference = fixed(1.0);
    context.position_in_progression = fixed(0.5);
    context.genre_weights = vec![];
    // 0.5 + 0.128571 + 0.12 + 0.2 * 0.2 + 0.1 * 0.1
    assert_eq!(s.calculate_context_score(&tonic, &context).micros, 798_571);
}

#[test]
fn repetition_window() {
    let s = ChordProgressionSuggester::new();
    let mut context = SuggestionContext::default();
    for root in [1u8, 2, 3, 4, 5] {
        context.recent_chords.push(chord(root, 5));
    }
    context.avoid_repetition_within = 2;
    assert!(s.should_avoid_chord(&chord(5, 5), &context));
    assert!(s.should_avoid_chord(&chord(4, 5), &context));
    assert!(!s.should_avoid_chord(&chord(3, 5), &context));
    assert!(!s.should_avoid_chord(&chord(5, 7), &context));
    // with fewer recent chords than the window every one of them counts
    context.avoid_repetition_within = 6;
    assert!(s.should_avoid_chord(&chord(5, 5), &context));
    assert!(s.should_avoid_chord(&chord(1, 5), &context));
    assert!(!s.should_avoid_chord(&chord(6, 5), &context));
    assert!(!s.should_avoid_chord(&chord(1, 7), &context));
    context.avoid_repetition_within = 5;
    assert!(s.should_avoid_chord(&chord(1, 5), &context));
    context.avoid_repetition_within = 4;
    assert!(!s.should_avoid_chord(&chord(1, 5), &context));
    context.avoid_repetition_within = 0;
    assert!(!s.should_avoid_chord(&chord(5, 5), &context));
}

#[test]
fn reasoning_in_words() {
    let s = ChordProgressionSuggester::new();
    let context = SuggestionContext::default();
    assert_eq!(
        s.generate_reasoning(&chord(2, 5), &[], &context, fixed(0.1), fixed(0.9), fixed(0.9)),
        "reasonable harmonic choice"
    );
    assert_eq!(
        s.generate_reasoning(&chord(1, 5), &[chord(5, 7)], &context, fixed(0.9), fixed(0.9), fixed(0.9)),
        "Suggested because it very commonly used in similar progressions and provides strong dominant-tonic resolution"
    );
    let mut late = SuggestionContext::default();
    late.scale_fingerprint = Some(ScaleFingerprint::major_scale());
    late.position_in_progression = fixed(0.9);
    assert_eq!(
        s.generate_reasoning(&chord(5, 7), &[chord(2, 7)], &late, fixed(0.5), fixed(0.6), fixed(0.8)),
        "Suggested because it occasionally used in this style, works well in the current key, continues ii-V motion, dominant seventh adds harmonic tension and builds tension toward resolution"
    );
    assert_eq!(
        s.generate_reasoning(&chord(3, 9), &[], &context, fixed(0.0), fixed(0.0), fixed(0.0)),
        "Suggested because it extended harmony adds sophistication"
    );
    let seen = result_of(&chord(1, 5), 600, 20, 0.07, 0.0);
    assert_eq!(
        s.generate_magic_chord_reasoning(fixed(0.9), &seen),
        "exceptionally strong statistical match, very frequently used in similar progressions and notable frequency in this pattern type"
    );
    let rare = result_of(&chord(1, 5), 2, 11, 0.01, 0.0);
    assert_eq!(s.generate_magic_chord_reasoning(fixed(0.1), &rare), "limited statistical support");
}

#[test]
fn contextual_suggestions_are_scored_filtered_and_remembered() {
    let mut trie = ChordProgressionTrie::new();
    for (i, (root, chord_type)) in
        [(5u8, 7u8), (5, 7), (5, 7), (4, 5), (4, 5), (6, 5), (1, 5)].iter().enumerate()
    {
        trie.add_pattern(&[chord(1, 5), chord(*root, *chord_type)], format!("song{}", i), None)
            .unwrap();
    }
    trie.calculate_all_ranks();
    let mut suggester = ChordProgressionSuggester::new();
    let mut context = SuggestionContext::default();
    context.recent_chords.push(chord(1, 5));
    context.avoid_repetition_within = 1;
    // with the default confidence of 0.3 nothing passes: the counts are small
    assert!(suggester
        .get_chord_suggestions(&trie, &[chord(1, 5)], &context, &SuggestionConfig::default())
        .unwrap()
        .is_empty());
    let config = SuggestionConfig {
        max_suggestions: 2,
        min_confidence: fixed(0.2),
        ..SuggestionConfig::default()
    };

    let found = suggester.get_chord_suggestions(&trie, &[chord(1, 5)], &context, &config).unwrap();
    assert_eq!(found.len(), 2);
    // V7 after I: frequency 0.003, context 0.5 + 0.1 + 0.19 + 0.08 = 0.87,
    // theory 0.5 + 0.4 * 0.7 + 0.3 * 0.9 + 0.3 * 0.99 = 1.347 -> 1
    assert_eq!(found[0].chord, chord(5, 7));
    assert_eq!(found[0].frequency_score.micros, 3_000);
    assert_eq!(found[0].context_score.micros, 870_000);
    assert_eq!(found[0].theory_score.micros, 1_000_000);
    assert_eq!(found[0].weighted_score.micros, 1_200 + 304_500 + 250_000);
    assert_eq!(found[0].confidence.micros, (555_700 + 30_000) / 2);
    assert_eq!(
        found[0].reasoning,
        "Suggested because it provides good voice leading and dominant seventh adds harmonic tension"
    );
    // vi: 0.001 * 0.4 + 0.86 * 0.35 + 1.0 * 0.25, ahead of IV with 0.5378
    assert_eq!(found[1].chord, chord(6, 5));
    assert_eq!(found[1].context_score.micros, 860_000);
    assert_eq!(found[1].weighted_score.micros, 551_400);
    assert!(found[0].weighted_score >= found[1].weighted_score);
    assert!(found.iter().all(|s| s.chord != chord(1, 5)));
    assert!(found.iter().all(|s| s.confidence.micros >= 0));

    // the answer is remembered under a key that does not hold the chords
    assert_eq!(suggester.cache_stats().0, 2);
    let again =
        suggester.get_chord_suggestions(&trie, &[chord(6, 5)], &context, &config).unwrap();
    assert_eq!(again.len(), 2);
    assert_eq!(again[0].chord, chord(5, 7));
    assert_eq!(again[0].reasoning, found[0].reasoning);
    suggester.clear_cache();
    assert_eq!(suggester.cache_stats().0, 0);
    let fresh = suggester.get_chord_suggestions(&trie, &[chord(6, 5)], &context, &config).unwrap();
    assert!(fresh.is_empty());

    // a higher bar drops every candidate
    let strict = SuggestionConfig { min_confidence: fixed(0.9), max_suggestions: 3, ..config };
    assert!(suggester
        .get_chord_suggestions(&trie, &[chord(1, 5)], &context, &strict)
        .unwrap()
        .is_empty());
    let long: Vec<Chord> = (0..21).map(|_| chord(1, 5)).collect();
    assert!(matches!(
        suggester.get_chord_suggestions(&trie, &long, &context, &config),
        Err(AiError::InvalidPattern { .. })
    ));
}

#[test]
fn undecodable_matches_are_passed_over() {
    let s = ChordProgressionSuggester::new();
    let good = result_of(&chord(4, 5), 10, 1, 1.0, 10.0);
    let mut foreign = result_of(&chord(4, 5), 10, 1, 1.0, 10.0);
    foreign.serialized_chord = [0xff, 0, 0, 0, 0];
    let mut s0 = ChordProgressionSuggester::new();
    s0.set_confidence_threshold(Fixed::from_micros(0));
    let out = s0
        .apply_magic_chord_weighting(vec![foreign.clone(), good.clone()], 1, 0, 2, 5)
        .unwrap();
    assert_eq!(out.len(), 1);
    assert_eq!(out[0].chord, chord(4, 5));
    let context = SuggestionContext::default();
    let config = SuggestionConfig { min_confidence: fixed(0.0), ..SuggestionConfig::default() };
    let scored = s
        .score_and_rank_suggestions(vec![foreign, good], &[chord(1, 5)], &context, &config)
        .unwrap();
    assert_eq!(scored.len(), 1);
    assert_eq!(scored[0].pattern_info.count, 10);
}

#[test]
fn slow_calls_report_a_degradation() {
    assert_eq!(within_budget("lookup", 1, 1, vec![]).unwrap().len(), 0);
    match within_budget("lookup", 2, 1, vec![]) {
        Err(AiError::PerformanceDegradation { operation, ms, limit_ms }) => {
            assert_eq!(operation, "lookup");
            assert_eq!(ms, 2);
            assert_eq!(limit_ms, 1);
        }
        other => panic!("unexpected result: {:?}", other.map(|v| v.len())),
    }
    let mut s = ChordProgressionSuggester::new();
    s.update_performance_metrics(10);
    assert_eq!(s.avg_suggestion_time_ms().micros, 1_000_000);
    s.update_performance_metrics(0);
    assert_eq!(s.avg_suggestion_time_ms().micros, 900_000);
    let context = SuggestionContext::default();
    let config = SuggestionConfig::default();
    let mut odd = SuggestionContext::default();
    odd.position_in_progression = fixed(0.125);
    odd.target_valence = fixed(-0.126);
    assert_eq!(s.generate_cache_key(&[chord(1, 5)], &context, &config), (1, 50, 0, 100));
    assert_eq!(s.generate_cache_key(&[], &odd, &config), (0, 13, -13, 100));
}

fn refusal_of(r: Result<Vec<composer::suggestions::ChordSuggestion>, AiError>) -> (bool, String) {
    match r {
        Err(AiError::InvalidPattern { reason }) => (true, reason),
        Err(AiError::SuggestionFailed { reason }) => (false, reason),
        other => panic!("{:?}", other),
    }
}

#[test]
fn refused_requests_say_why() {
    let trie = ChordProgressionTrie::new();
    let mut s = ChordProgressionSuggester::new();
    let context = SuggestionContext::default();
    let config = SuggestionConfig::default();
    assert_eq!(
        refusal_of(s.get_chord_suggestions(&trie, &[], &context, &config)),
        (true, "Pattern cannot be empty".to_string())
    );
    let long: Vec<Chord> = (0..21).map(|_| chord(1, 5)).collect();
    assert_eq!(
        refusal_of(s.get_chord_suggestions(&trie, &long, &context, &config)),
        (true, "Pattern too long: 21 (max: 20)".to_string())
    );
    let mut broken = chord(2, 7);
    broken.applied = 9;
    assert_eq!(
        refusal_of(s.get_chord_suggestions(&trie, &[chord(1, 5), broken.clone()], &context, &config)),
        (
            false,
            "Chord serialization failed: Invalid chord data structure: applied 9 out of range 0-7"
                .to_string()
        )
    );
    assert_eq!(s.cache_stats().0, 0);
    let many: Vec<Chord> = (0..51).map(|_| chord(1, 5)).collect();
    assert_eq!(
        refusal_of(s.magic_chord_solutions(&trie, &many, &[], 5)),
        (true, "Maximum 50 chords allowed in pattern".to_string())
    );
    assert_eq!(
        refusal_of(s.magic_chord_solutions(&trie, &[], &many, 5)),
        (true, "Maximum 50 chords allowed in pattern".to_string())
    );
    assert_eq!(
        refusal_of(s.magic_chord_solutions(&trie, &[], &[], 101)),
        (true, "Maximum 100 suggestions allowed".to_string())
    );
    // the first chord without a binary form is named, before the gap or behind it
    let mut high = chord(1, 5);
    high.root = 12;
    assert_eq!(
        refusal_of(s.magic_chord_solutions(&trie, &[chord(1, 5)], &[high.clone(), broken.clone()], 5)),
        (
            false,
            "Chord serialization failed: Invalid chord data structure: root 12 out of range 0-7"
                .to_string()
        )
    );
    assert_eq!(
        refusal_of(s.magic_chord_solutions(&trie, &[broken], &[high], 5)),
        (
            false,
            "Chord serialization failed: Invalid chord data structure: applied 9 out of range 0-7"
                .to_string()
        )
    );
}

#[test]
fn a_recent_chord_is_not_suggested_again_though_the_window_is_wider() {
    let mut trie = ChordProgressionTrie::new();
    for n in 0..6 {
        trie.add_pattern(&[chord(1, 5), chord(5, 7)], format!("a{}", n), None).unwrap();
    }
    trie.add_pattern(&[chord(1, 5), chord(4, 5)], "b".to_string(), None).unwrap();
    trie.calculate_all_ranks();
    let mut s = ChordProgressionSuggester::new();
    let mut config = SuggestionConfig::default();
    config.min_confidence = Fixed { micros: 0 };
    let mut context = SuggestionContext::default();
    assert_eq!(context.avoid_repetition_within, 4);
    let open = s.get_chord_suggestions(&trie, &[chord(1, 5)], &context, &config).unwrap();
    let roots: Vec<u8> = open.iter().map(|x| x.chord.root).collect();
    assert_eq!(roots, vec![5, 4]);
    s.clear_cache();
    context.recent_chords.push(chord(5, 7));
    let kept = s.get_chord_suggestions(&trie, &[chord(1, 5)], &context, &config).unwrap();
    let roots: Vec<u8> = kept.iter().map(|x| x.chord.root).collect();
    assert_eq!(roots, vec![4]);
}
