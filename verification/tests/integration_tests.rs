use composer::chord::{BorrowedScale, Chord};
use composer::chord_binary::{chord_binary_to_hex, deserialize_chord, serialize_chord};
use composer::config::performance;
use composer::scale::ScaleFingerprint;
use std::time::Instant;
use composer::theory::{
    get_chord_complexity, get_relative_chord_graphic, get_relative_scale_degrees,
    get_stable_scale_degrees,
};

fn complexity_of(chord: &Chord) -> f64 {
    get_chord_complexity(chord, "major").unwrap().micros as f64 / 1e6
}

#[test]
fn test_complete_chord_analysis_workflow() {
    let chord = Chord::new(2, 7)
        .unwrap()
        .with_applied(5)
        .unwrap()
        .with_alteration("b9")
        .unwrap()
        .with_inversion(1)
        .unwrap();

    let scale = ScaleFingerprint::major_scale();

    let relative_degrees = get_relative_scale_degrees(&chord).unwrap();
    assert_eq!(relative_degrees.sd_numbers, vec![3, 5, 7, 1, 9]);
    assert!(relative_degrees.sd_accs.contains(&"b".to_string()));

    let stable_degrees = get_stable_scale_degrees(&chord, &scale).unwrap();
    assert!(!stable_degrees.is_empty());

    let complexity = complexity_of(&chord);
    assert!(complexity > 3.0);

    let roman = get_relative_chord_graphic(&chord, &scale).unwrap();
    assert!(roman.is_applied());
    assert!(!roman.alterations.is_empty());

    println!("Chord analysis complete:");
    println!("  Chord: {}", chord.to_text());
    println!("  Stable degrees: {:?}", stable_degrees);
    println!("  Complexity: {:.1}", complexity);
    println!("  Roman numeral: {}", roman.to_text());
}

#[test]
fn test_performance_requirements() {
    let chord = Chord::new(5, 7)
        .unwrap()
        .with_alteration("b9")
        .unwrap()
        .with_inversion(1)
        .unwrap();

    let scale = ScaleFingerprint::major_scale();

    let start = Instant::now();
    for _ in 0..100 {
        let _degrees = get_stable_scale_degrees(&chord, &scale).unwrap();
    }
    let elapsed = start.elapsed();
    let avg_time_ms = elapsed.as_millis() as f64 / 100.0;

    println!("Average chord lookup time: {:.3}ms", avg_time_ms);
    assert!(avg_time_ms < performance().chord_lookup_max_ms as f64);

    let start = Instant::now();
    for _ in 0..1000 {
        let _binary = serialize_chord(&chord).unwrap();
    }
    let elapsed = start.elapsed();
    let avg_serialization_ms = elapsed.as_millis() as f64 / 1000.0;

    println!("Average serialization time: {:.3}ms", avg_serialization_ms);
    assert!(avg_serialization_ms < 0.1);

    let memory_size = std::mem::size_of::<Chord>();
    println!("Chord struct size: {} bytes", memory_size);
    assert!(memory_size < 500);
}

#[test]
fn test_chord_theory_accuracy() {
    let i_chord = Chord::new(1, 5).unwrap();
    let major_scale = ScaleFingerprint::major_scale();

    let degrees = get_stable_scale_degrees(&i_chord, &major_scale).unwrap();
    assert_eq!(degrees, vec!["1", "3", "5"]);

    let complexity = complexity_of(&i_chord);
    assert_eq!(complexity, 1.0);

    let roman = get_relative_chord_graphic(&i_chord, &major_scale).unwrap();
    assert_eq!(roman.symbol, "I");
    assert!(roman.is_major());

    let ii7_chord = Chord::new(2, 7).unwrap();
    let degrees = get_stable_scale_degrees(&ii7_chord, &major_scale).unwrap();
    assert_eq!(degrees, vec!["2", "4", "6", "1"]);

    let complexity = complexity_of(&ii7_chord);
    assert_eq!(complexity, 2.0);

    let roman = get_relative_chord_graphic(&ii7_chord, &major_scale).unwrap();
    assert_eq!(roman.symbol, "ii7");
    assert!(roman.is_minor());

    println!("Chord theory accuracy tests passed");
}

#[test]
fn test_harmonic_analysis_workflow() {
    let progression = vec![
        Chord::new(1, 5).unwrap(),
        Chord::new(6, 5).unwrap(),
        Chord::new(4, 5).unwrap(),
        Chord::new(5, 7).unwrap(),
    ];

    let scale = ScaleFingerprint::major_scale();
    let mut analysis_results = Vec::new();

    for (i, chord) in progression.iter().enumerate() {
        let degrees = get_stable_scale_degrees(chord, &scale).unwrap();
        let complexity = complexity_of(chord);
        let roman = get_relative_chord_graphic(chord, &scale).unwrap();

        let binary = serialize_chord(chord).unwrap();
        let hex = chord_binary_to_hex(&binary);

        analysis_results.push((
            i + 1,
            chord.clone(),
            degrees,
            complexity,
            roman.full_symbol(),
            hex,
        ));
    }

    println!("Harmonic Analysis of I-vi-IV-V7 progression:");
    println!("Pos | Chord | Degrees    | Complexity | Roman | Binary");
    println!("----|-------|------------|------------|-------|----------");

    for (pos, chord, degrees, complexity, roman, hex) in &analysis_results {
        println!(
            "{:3} | {:5} | {:10} | {:8.1} | {:5} | {}",
            pos,
            chord.to_text(),
            degrees.join(","),
            complexity,
            roman,
            hex
        );
    }

    assert_eq!(analysis_results.len(), 4);
    assert_eq!(analysis_results[0].4, "I");
    assert!(analysis_results[1].4.contains("vi"));
    assert_eq!(analysis_results[2].4, "IV");
    assert!(analysis_results[3].4.contains("V"));

    let complexities: Vec<f64> = analysis_results.iter().map(|r| r.3).collect();
    assert!(complexities[3] > complexities[0]);

    println!("Complete harmonic analysis workflow test passed");
}

#[test]
fn test_edge_cases() {
    let complex_chord = Chord::new(1, 13)
        .unwrap()
        .with_alteration("b5")
        .unwrap()
        .with_alteration("#9")
        .unwrap()
        .with_alteration("#11")
        .unwrap()
        .with_alteration("b13")
        .unwrap()
        .with_suspension(4)
        .unwrap()
        .with_add(6)
        .unwrap()
        .with_omit(3)
        .unwrap()
        .with_inversion(3)
        .unwrap()
        .with_applied(5)
        .unwrap()
        .with_borrowed_scale(BorrowedScale::Named("harmonic_minor".to_string()))
        .unwrap();

    let binary = serialize_chord(&complex_chord).unwrap();
    let deserialized = deserialize_chord(&binary).unwrap();
    assert_eq!(complex_chord.root, deserialized.root);

    let complexity = complexity_of(&complex_chord);
    assert!(complexity > 5.0);
    assert!(complexity <= 10.0);

    let chromatic = ScaleFingerprint::chromatic_scale();
    for &chord_type in &[5, 7, 9, 11, 13] {
        for root in 1..=7 {
            let chord = Chord::new(root, chord_type).unwrap();
            let degrees = get_stable_scale_degrees(&chord, &chromatic).unwrap();
            assert!(!degrees.is_empty());
        }
    }

    println!("Edge case tests passed");
}
