use composer::analysis::{
    ComplexityFactors, DifficultyAssessment, MusicalAnalyzer, ProgressionAnalysis, SkillLevel,
};
use composer::chord::Chord;
use composer::error::AiResult;
use composer::fixed::Fixed;
use composer::trie::ChordProgressionTrie;
use std::cell::RefCell;

fn f(x: Fixed) -> f64 {
    x.micros as f64 / 1e6
}

fn fixed(x: f64) -> Fixed {
    Fixed { micros: (x * 1e6).round() as i64 }
}

#[derive(Debug, Clone)]
#[allow(dead_code)]
struct Factors {
    unique_chords: usize,
    avg_chord_complexity: f64,
    key_changes: usize,
    uncommon_progressions: usize,
    time_signature_changes: usize,
    extended_harmonies: usize,
    voice_leading_complexity: f64,
    tempo_variations: f64,
}

#[derive(Debug, Clone)]
#[allow(dead_code)]
struct Assessment {
    overall_score: f64,
    harmonic_complexity: f64,
    rhythmic_complexity: f64,
    technical_complexity: f64,
    melodic_complexity: f64,
    factors: Factors,
    confidence: f64,
    skill_level: SkillLevel,
}

#[allow(dead_code)]
struct Rhythm {
    avg_chord_duration: f64,
    regularity: f64,
    rhythm_patterns: Vec<String>,
}

#[allow(dead_code)]
struct Analysis {
    key_centers: Vec<composer::analysis::KeyCenter>,
    common_patterns: Vec<composer::analysis::CommonPattern>,
    harmonic_rhythm: Rhythm,
    voice_leading_quality: f64,
    improvements: Vec<String>,
}

fn factors_in_floats(x: &ComplexityFactors) -> Factors {
    Factors {
        unique_chords: x.unique_chords,
        avg_chord_complexity: f(x.avg_chord_complexity),
        key_changes: x.key_changes,
        uncommon_progressions: x.uncommon_progressions,
        time_signature_changes: x.time_signature_changes,
        extended_harmonies: x.extended_harmonies,
        voice_leading_complexity: f(x.voice_leading_complexity),
        tempo_variations: f(x.tempo_variations),
    }
}

fn assessment_in_floats(x: DifficultyAssessment) -> Assessment {
    Assessment {
        overall_score: f(x.overall_score),
        harmonic_complexity: f(x.harmonic_complexity),
        rhythmic_complexity: f(x.rhythmic_complexity),
        technical_complexity: f(x.technical_complexity),
        melodic_complexity: f(x.melodic_complexity),
        factors: factors_in_floats(&x.factors),
        confidence: f(x.confidence),
        skill_level: x.skill_level,
    }
}

fn analysis_in_floats(x: ProgressionAnalysis) -> Analysis {
    Analysis {
        key_centers: x.key_centers,
        common_patterns: x.common_patterns,
        harmonic_rhythm: Rhythm {
            avg_chord_duration: f(x.harmonic_rhythm.avg_chord_duration),
            regularity: f(x.harmonic_rhythm.regularity),
            rhythm_patterns: x.harmonic_rhythm.rhythm_patterns,
        },
        voice_leading_quality: f(x.voice_leading_quality),
        improvements: x.improvements,
    }
}

struct Analyzer {
    trie: ChordProgressionTrie,
    inner: RefCell<MusicalAnalyzer>,
}

#[allow(dead_code)]
impl Analyzer {
    fn new(trie: ChordProgressionTrie) -> Self {
        Analyzer { trie, inner: RefCell::new(MusicalAnalyzer::new()) }
    }

    fn assess_difficulty(
        &self,
        progression: &[Chord],
        tempo_bpm: Option<f64>,
        time_signature: Option<(u8, u8)>,
    ) -> AiResult<Assessment> {
        self.inner
            .borrow_mut()
            .assess_difficulty(&self.trie, progression, tempo_bpm.map(fixed), time_signature)
            .map(assessment_in_floats)
    }

    fn analyze_progression(&self, progression: &[Chord]) -> AiResult<Analysis> {
        self.inner.borrow().analyze_progression(progression).map(analysis_in_floats)
    }

    fn calculate_single_chord_complexity(&self, chord: &Chord) -> f64 {
        f(self.inner.borrow().calculate_single_chord_complexity(chord))
    }

    fn classify_skill_level(&self, score: f64) -> SkillLevel {
        self.inner.borrow().classify_skill_level(fixed(score))
    }

    fn calculate_voice_leading_complexity(&self, progression: &[Chord]) -> f64 {
        f(self.inner.borrow().calculate_voice_leading_complexity(progression))
    }

    fn is_extended_harmony(&self, chord: &Chord) -> bool {
        self.inner.borrow().is_extended_harmony(chord)
    }

    fn calculate_root_interval(&self, chord1: &Chord, chord2: &Chord) -> u8 {
        self.inner.borrow().calculate_root_interval(chord1, chord2)
    }

    fn cache_stats(&self) -> (usize, usize) {
        self.inner.borrow().cache_stats()
    }

    fn clear_cache(&self) {
        self.inner.borrow_mut().clear_cache()
    }
}

#[test]
fn test_analyzer_creation() {
    let trie = ChordProgressionTrie::new();
    let analyzer = Analyzer::new(trie);
    let (cache_len, _) = analyzer.cache_stats();
    assert_eq!(cache_len, 0);
}

#[test]
fn analysis_test_difficulty_assessment() {
    let trie = ChordProgressionTrie::new();
    let analyzer = Analyzer::new(trie);

    let progression = vec![
        Chord::new(1, 5).unwrap(),
        Chord::new(5, 7).unwrap(),
        Chord::new(6, 5).unwrap(),
        Chord::new(4, 5).unwrap(),
    ];

    let result = analyzer.assess_difficulty(&progression, Some(120.0), Some((4, 4)));
    assert!(result.is_ok());

    let assessment = result.unwrap();
    assert!(assessment.overall_score >= 0.0 && assessment.overall_score <= 10.0);
    assert!(assessment.confidence >= 0.0 && assessment.confidence <= 1.0);
}

#[test]
fn analysis_test_empty_progression_error() {
    let trie = ChordProgressionTrie::new();
    let analyzer = Analyzer::new(trie);

    let result = analyzer.assess_difficulty(&[], None, None);
    assert!(result.is_err());
}

#[test]
fn analysis_test_skill_level_classification() {
    let trie = ChordProgressionTrie::new();
    let analyzer = Analyzer::new(trie);

    assert_eq!(analyzer.classify_skill_level(1.0), SkillLevel::Beginner);
    assert_eq!(analyzer.classify_skill_level(3.0), SkillLevel::Intermediate);
    assert_eq!(analyzer.classify_skill_level(6.0), SkillLevel::Advanced);
    assert_eq!(analyzer.classify_skill_level(9.0), SkillLevel::Expert);
}

#[test]
fn test_chord_complexity_calculation() {
    let trie = ChordProgressionTrie::new();
    let analyzer = Analyzer::new(trie);

    let simple_chord = Chord::new(1, 5).unwrap();
    let mut complex_chord = Chord::new(1, 9).unwrap();
    complex_chord.alterations.push("#11".to_string());
    complex_chord.suspensions.push(4);

    let simple_complexity = analyzer.calculate_single_chord_complexity(&simple_chord);
    let complex_complexity = analyzer.calculate_single_chord_complexity(&complex_chord);

    assert!(complex_complexity > simple_complexity);
}

#[test]
fn test_voice_leading_complexity() {
    let trie = ChordProgressionTrie::new();
    let analyzer = Analyzer::new(trie);

    let smooth_progression = vec![
        Chord::new(1, 5).unwrap(),
        Chord::new(2, 5).unwrap(),
    ];

    let jumpy_progression = vec![
        Chord::new(1, 5).unwrap(),
        Chord::new(7, 5).unwrap(),
    ];

    let smooth_complexity = analyzer.calculate_voice_leading_complexity(&smooth_progression);
    let jumpy_complexity = analyzer.calculate_voice_leading_complexity(&jumpy_progression);

    assert!(jumpy_complexity >= smooth_complexity);
}

#[test]
fn test_extended_harmony_detection() {
    let trie = ChordProgressionTrie::new();
    let analyzer = Analyzer::new(trie);

    let simple_chord = Chord::new(1, 5).unwrap();
    let extended_chord = Chord::new(1, 7).unwrap();

    assert!(!analyzer.is_extended_harmony(&simple_chord));
    assert!(analyzer.is_extended_harmony(&extended_chord));
}

#[test]
fn test_interval_calculation() {
    let trie = ChordProgressionTrie::new();
    let analyzer = Analyzer::new(trie);

    let chord1 = Chord::new(1, 5).unwrap();
    let chord2 = Chord::new(5, 5).unwrap();

    let interval = analyzer.calculate_root_interval(&chord1, &chord2);
    assert_eq!(interval, 4);
}

#[test]
fn test_progression_analysis() {
    let trie = ChordProgressionTrie::new();
    let analyzer = Analyzer::new(trie);

    let progression = vec![
        Chord::new(1, 5).unwrap(),
        Chord::new(5, 7).unwrap(),
        Chord::new(6, 5).unwrap(),
    ];

    let result = analyzer.analyze_progression(&progression);
    assert!(result.is_ok());

    let analysis = result.unwrap();
    assert!(!analysis.key_centers.is_empty());
    assert!(analysis.voice_leading_quality >= 0.0 && analysis.voice_leading_quality <= 1.0);
}



#[test]
fn test_difficulty_assessment_basic() {
    let trie = ChordProgressionTrie::new();
    let analyzer = Analyzer::new(trie);
    let simple_progression = vec![
        Chord::new(1, 5).unwrap(),
        Chord::new(5, 7).unwrap(),
        Chord::new(6, 5).unwrap(),
        Chord::new(4, 5).unwrap(),
    ];

    let result = analyzer.assess_difficulty(&simple_progression, Some(120.0), Some((4, 4)));

    assert!(result.is_ok());
    let assessment = result.unwrap();
    assert!(
        assessment.overall_score >= 0.0 && assessment.overall_score <= 10.0,
        "Overall score should be 0-10: {}",
        assessment.overall_score
    );
    assert!(assessment.harmonic_complexity >= 0.0 && assessment.harmonic_complexity <= 10.0);
    assert!(assessment.rhythmic_complexity >= 0.0 && assessment.rhythmic_complexity <= 10.0);
    assert!(assessment.technical_complexity >= 0.0 && assessment.technical_complexity <= 10.0);
    assert!(assessment.melodic_complexity >= 0.0 && assessment.melodic_complexity <= 10.0);
    assert!(
        assessment.confidence >= 0.0 && assessment.confidence <= 1.0,
        "Confidence should be 0-1: {}",
        assessment.confidence
    );
}

#[test]
fn test_chord_difficulty_factors() {
    let trie = ChordProgressionTrie::new();
    let analyzer = Analyzer::new(trie);
    let complex_progression = vec![
        Chord::new(1, 9).unwrap(),
        Chord::new(2, 7).unwrap(),
        Chord::new(5, 13).unwrap(),
    ];

    let result = analyzer.assess_difficulty(&complex_progression, Some(120.0), Some((4, 4)));

    assert!(result.is_ok());
    let assessment = result.unwrap();

    assert!(
        assessment.factors.unique_chords <= complex_progression.len(),
        "Unique chords should not exceed total chords"
    );
    assert!(
        assessment.factors.extended_harmonies > 0,
        "Should detect extended harmonies"
    );
    assert!(
        assessment.factors.avg_chord_complexity > 1.0,
        "Complex chords should have higher average complexity"
    );
}

#[test]
fn test_difficulty_assessment_test_skill_level_classification() {
    let trie = ChordProgressionTrie::new();
    let analyzer = Analyzer::new(trie);
    let simple = vec![
        Chord::new(1, 5).unwrap(),
        Chord::new(4, 5).unwrap(),
        Chord::new(5, 5).unwrap(),
        Chord::new(1, 5).unwrap(),
    ];

    let simple_result = analyzer.assess_difficulty(&simple, Some(120.0), Some((4, 4)));
    assert!(simple_result.is_ok());
    let simple_assessment = simple_result.unwrap();
    match simple_assessment.skill_level {
        SkillLevel::Beginner
        | SkillLevel::Intermediate
        | SkillLevel::Advanced
        | SkillLevel::Expert => {
        },
    }
    let mut complex = Chord::new(1, 13).unwrap();
    complex.alterations.push("#11".to_string());
    complex.alterations.push("b9".to_string());
    complex.suspensions.push(4);

    let complex_progression = vec![complex];

    let complex_result =
        analyzer.assess_difficulty(&complex_progression, Some(180.0), Some((7, 8)));
    assert!(complex_result.is_ok());
    let complex_assessment = complex_result.unwrap();
    assert!(
        complex_assessment.harmonic_complexity > simple_assessment.harmonic_complexity,
        "Complex progression should have higher harmonic complexity"
    );
}

#[test]
fn test_melody_difficulty_assessment() {
    let trie = ChordProgressionTrie::new();
    let analyzer = Analyzer::new(trie);
    let progression = vec![
        Chord::new(1, 5).unwrap(),
        Chord::new(7, 5).unwrap(),
    ];

    let result = analyzer.assess_difficulty(&progression, Some(120.0), Some((4, 4)));

    assert!(result.is_ok());
    let assessment = result.unwrap();
    assert!(
        assessment.melodic_complexity >= 1.0,
        "Large intervals should increase melodic complexity"
    );
}

#[test]
fn test_harmonic_rhythm_analysis() {
    let trie = ChordProgressionTrie::new();
    let analyzer = Analyzer::new(trie);

    let progression = vec![
        Chord::new(1, 5).unwrap(),
        Chord::new(5, 5).unwrap(),
        Chord::new(6, 5).unwrap(),
        Chord::new(4, 5).unwrap(),
    ];

    let analysis_result = analyzer.analyze_progression(&progression);

    assert!(analysis_result.is_ok());
    let analysis = analysis_result.unwrap();
    assert!(
        analysis.harmonic_rhythm.avg_chord_duration > 0.0,
        "Should calculate average chord duration"
    );
    assert!(
        analysis.harmonic_rhythm.regularity >= 0.0 && analysis.harmonic_rhythm.regularity <= 1.0,
        "Rhythm regularity should be 0-1"
    );
    assert!(
        !analysis.harmonic_rhythm.rhythm_patterns.is_empty(),
        "Should detect rhythm patterns"
    );
}

#[test]
fn test_voice_leading_quality() {
    let trie = ChordProgressionTrie::new();
    let analyzer = Analyzer::new(trie);
    let smooth_progression = vec![
        Chord::new(1, 5).unwrap(),
        Chord::new(2, 5).unwrap(),
        Chord::new(3, 5).unwrap(),
    ];
    let jumpy_progression = vec![
        Chord::new(1, 5).unwrap(),
        Chord::new(6, 5).unwrap(),
        Chord::new(2, 5).unwrap(),
    ];

    let smooth_result = analyzer.analyze_progression(&smooth_progression);
    let jumpy_result = analyzer.analyze_progression(&jumpy_progression);

    assert!(smooth_result.is_ok());
    assert!(jumpy_result.is_ok());

    let smooth_analysis = smooth_result.unwrap();
    let jumpy_analysis = jumpy_result.unwrap();
    assert!(
        smooth_analysis.voice_leading_quality >= jumpy_analysis.voice_leading_quality,
        "Smooth voice leading should score higher than jumpy: {} vs {}",
        smooth_analysis.voice_leading_quality,
        jumpy_analysis.voice_leading_quality
    );
}

#[test]
fn test_difficulty_assessment_test_empty_progression_error() {
    let trie = ChordProgressionTrie::new();
    let analyzer = Analyzer::new(trie);
    let result = analyzer.assess_difficulty(&[], None, None);

    assert!(result.is_err());
    if let Err(error) = result {
        assert!(
            error.to_text().contains("empty"),
            "Should detect empty progression"
        );
    }
}

#[test]
fn test_difficulty_assessment_test_confidence_calculation() {
    let trie = ChordProgressionTrie::new();
    let analyzer = Analyzer::new(trie);
    let short_progression = vec![Chord::new(1, 5).unwrap()];
    let long_progression = vec![
        Chord::new(1, 5).unwrap(),
        Chord::new(6, 5).unwrap(),
        Chord::new(4, 5).unwrap(),
        Chord::new(5, 7).unwrap(),
        Chord::new(1, 5).unwrap(),
    ];

    let short_result = analyzer.assess_difficulty(&short_progression, Some(120.0), Some((4, 4)));
    let long_result = analyzer.assess_difficulty(&long_progression, Some(120.0), Some((4, 4)));

    assert!(short_result.is_ok());
    assert!(long_result.is_ok());

    let short_assessment = short_result.unwrap();
    let long_assessment = long_result.unwrap();
    assert!(
        long_assessment.confidence >= short_assessment.confidence,
        "Longer progression should have higher confidence: {} vs {}",
        long_assessment.confidence,
        short_assessment.confidence
    );
}

#[test]
fn test_complexity_factors_calculation() {
    let trie = ChordProgressionTrie::new();
    let analyzer = Analyzer::new(trie);
    let mut complex_chord = Chord::new(1, 9).unwrap();
    complex_chord.alterations.push("#11".to_string());
    complex_chord.suspensions.push(4);
    complex_chord.adds.push(6);

    let progression = vec![
        Chord::new(1, 5).unwrap(),
        complex_chord,
        Chord::new(5, 7).unwrap(),
    ];

    let result = analyzer.assess_difficulty(&progression, Some(160.0), Some((4, 4)));

    assert!(result.is_ok());
    let assessment = result.unwrap();
    assert_eq!(
        assessment.factors.unique_chords, 3,
        "Should count unique chords correctly"
    );
    assert!(
        assessment.factors.extended_harmonies > 0,
        "Should detect extended harmonies"
    );
    assert!(
        assessment.factors.avg_chord_complexity > 1.0,
        "Should calculate average complexity > 1.0 for mixed progression"
    );
    assert!(
        assessment.rhythmic_complexity > 2.0,
        "Fast tempo should increase rhythmic complexity"
    );
}

#[test]
fn test_performance_regression() {
    let trie = ChordProgressionTrie::new();
    let analyzer = Analyzer::new(trie);
    let large_progression: Vec<Chord> = (0..20)
        .map(|i| Chord::new((i % 7) + 1, 5).unwrap())
        .collect();

    let start = std::time::Instant::now();
    let result = analyzer.assess_difficulty(&large_progression, Some(120.0), Some((4, 4)));
    let elapsed = start.elapsed();

    assert!(result.is_ok());
    assert!(
        elapsed.as_millis() < 1000,
        "Large progression analysis should be fast: {}ms",
        elapsed.as_millis()
    );
}

#[test]
fn test_skill_level_differentiation_regression() {
    let trie = ChordProgressionTrie::new();
    let analyzer = Analyzer::new(trie);
    let beginner_progression = vec![
        Chord::new(1, 5).unwrap(),
        Chord::new(4, 5).unwrap(),
        Chord::new(5, 5).unwrap(),
        Chord::new(1, 5).unwrap(),
    ];
    let intermediate_progression = vec![
        Chord::new(1, 7).unwrap(),
        Chord::new(6, 7).unwrap(),
        Chord::new(2, 7).unwrap(),
        Chord::new(5, 7).unwrap(),
    ];
    let advanced_progression = vec![
        Chord::new(1, 9).unwrap(),
        Chord::new(6, 11).unwrap(),
        Chord::new(2, 9).unwrap(),
        Chord::new(5, 13).unwrap(),
    ];
    let mut expert_chord_1 = Chord::new(1, 9).unwrap();
    expert_chord_1.alterations.push("#11".to_string());

    let mut expert_chord_2 = Chord::new(3, 7).unwrap();
    expert_chord_2.alterations.push("b9".to_string());

    let mut expert_chord_3 = Chord::new(6, 11).unwrap();
    expert_chord_3.suspensions.push(4);

    let mut expert_chord_4 = Chord::new(2, 9).unwrap();
    expert_chord_4.alterations.push("#11".to_string());
    expert_chord_4.adds.push(6);

    let mut expert_chord_5 = Chord::new(5, 13).unwrap();
    expert_chord_5.alterations.push("b9".to_string());
    expert_chord_5.alterations.push("#11".to_string());

    let expert_progression = vec![
        expert_chord_1,
        expert_chord_2,
        expert_chord_3,
        expert_chord_4,
        expert_chord_5,
        Chord::new(1, 7).unwrap(),
    ];
    let beginner_result =
        analyzer.assess_difficulty(&beginner_progression, Some(120.0), Some((4, 4)));
    let intermediate_result =
        analyzer.assess_difficulty(&intermediate_progression, Some(120.0), Some((4, 4)));
    let advanced_result =
        analyzer.assess_difficulty(&advanced_progression, Some(140.0), Some((4, 4)));
    let expert_result = analyzer.assess_difficulty(&expert_progression, Some(180.0), Some((7, 8)));

    assert!(beginner_result.is_ok());
    assert!(intermediate_result.is_ok());
    assert!(advanced_result.is_ok());
    assert!(expert_result.is_ok());

    let beginner_assessment = beginner_result.unwrap();
    let intermediate_assessment = intermediate_result.unwrap();
    let advanced_assessment = advanced_result.unwrap();
    let expert_assessment = expert_result.unwrap();
    println!("🔍 Debug: Complexity component breakdown:");
    println!(
        "  Beginner - H:{:.2} R:{:.2} T:{:.2} M:{:.2} = {:.2} ({})",
        beginner_assessment.harmonic_complexity,
        beginner_assessment.rhythmic_complexity,
        beginner_assessment.technical_complexity,
        beginner_assessment.melodic_complexity,
        beginner_assessment.overall_score,
        format!("{:?}", beginner_assessment.skill_level)
    );
    println!(
        "    Factors: unique={}, avg_complexity={:.2}, extended={}",
        beginner_assessment.factors.unique_chords,
        beginner_assessment.factors.avg_chord_complexity,
        beginner_assessment.factors.extended_harmonies
    );
    println!(
        "  Intermediate - H:{:.2} R:{:.2} T:{:.2} M:{:.2} = {:.2} ({})",
        intermediate_assessment.harmonic_complexity,
        intermediate_assessment.rhythmic_complexity,
        intermediate_assessment.technical_complexity,
        intermediate_assessment.melodic_complexity,
        intermediate_assessment.overall_score,
        format!("{:?}", intermediate_assessment.skill_level)
    );
    println!(
        "    Factors: unique={}, avg_complexity={:.2}, extended={}",
        intermediate_assessment.factors.unique_chords,
        intermediate_assessment.factors.avg_chord_complexity,
        intermediate_assessment.factors.extended_harmonies
    );
    println!(
        "  Intermediate chord types: {:?}",
        intermediate_progression
            .iter()
            .map(|c| c.chord_type)
            .collect::<Vec<_>>()
    );
    assert!(
        beginner_assessment.overall_score < 10.0,
        "Beginner progression should not max out at 10.0, got {:.2}",
        beginner_assessment.overall_score
    );

    assert!(
        intermediate_assessment.overall_score < 10.0,
        "Intermediate progression should not max out at 10.0, got {:.2}",
        intermediate_assessment.overall_score
    );
    assert!(
        beginner_assessment.overall_score <= intermediate_assessment.overall_score + 0.1,
        "Beginner ({:.2}) should not score significantly higher than Intermediate ({:.2})",
        beginner_assessment.overall_score,
        intermediate_assessment.overall_score
    );

    assert!(
        intermediate_assessment.overall_score <= advanced_assessment.overall_score + 0.1,
        "Intermediate ({:.2}) should not score significantly higher than Advanced ({:.2})",
        intermediate_assessment.overall_score,
        advanced_assessment.overall_score
    );

    assert!(
        advanced_assessment.overall_score <= expert_assessment.overall_score + 0.1,
        "Advanced ({:.2}) should not score significantly higher than Expert ({:.2})",
        advanced_assessment.overall_score,
        expert_assessment.overall_score
    );
    assert!(
        beginner_assessment.harmonic_complexity <= intermediate_assessment.harmonic_complexity + 0.1,
        "Beginner harmonic complexity ({:.2}) should not be significantly higher than intermediate ({:.2})",
        beginner_assessment.harmonic_complexity,
        intermediate_assessment.harmonic_complexity
    );

    assert!(
        intermediate_assessment.harmonic_complexity <= expert_assessment.harmonic_complexity + 0.1,
        "Intermediate harmonic complexity ({:.2}) should not be significantly higher than expert ({:.2})",
        intermediate_assessment.harmonic_complexity,
        expert_assessment.harmonic_complexity
    );
    println!("🔍 Debug: Complexity component breakdown:");
    println!(
        "  Beginner - H:{:.2} R:{:.2} T:{:.2} M:{:.2} = {:.2} ({})",
        beginner_assessment.harmonic_complexity,
        beginner_assessment.rhythmic_complexity,
        beginner_assessment.technical_complexity,
        beginner_assessment.melodic_complexity,
        beginner_assessment.overall_score,
        format!("{:?}", beginner_assessment.skill_level)
    );
    println!(
        "  Intermediate - H:{:.2} R:{:.2} T:{:.2} M:{:.2} = {:.2} ({})",
        intermediate_assessment.harmonic_complexity,
        intermediate_assessment.rhythmic_complexity,
        intermediate_assessment.technical_complexity,
        intermediate_assessment.melodic_complexity,
        intermediate_assessment.overall_score,
        format!("{:?}", intermediate_assessment.skill_level)
    );
    println!(
        "  Advanced - H:{:.2} R:{:.2} T:{:.2} M:{:.2} = {:.2} ({})",
        advanced_assessment.harmonic_complexity,
        advanced_assessment.rhythmic_complexity,
        advanced_assessment.technical_complexity,
        advanced_assessment.melodic_complexity,
        advanced_assessment.overall_score,
        format!("{:?}", advanced_assessment.skill_level)
    );
    println!(
        "  Expert - H:{:.2} R:{:.2} T:{:.2} M:{:.2} = {:.2} ({})",
        expert_assessment.harmonic_complexity,
        expert_assessment.rhythmic_complexity,
        expert_assessment.technical_complexity,
        expert_assessment.melodic_complexity,
        expert_assessment.overall_score,
        format!("{:?}", expert_assessment.skill_level)
    );

    println!("✅ Skill level differentiation test passed:");
    println!(
        "  Beginner: {:.2} ({})",
        beginner_assessment.overall_score,
        format!("{:?}", beginner_assessment.skill_level)
    );
    println!(
        "  Intermediate: {:.2} ({})",
        intermediate_assessment.overall_score,
        format!("{:?}", intermediate_assessment.skill_level)
    );
    println!(
        "  Advanced: {:.2} ({})",
        advanced_assessment.overall_score,
        format!("{:?}", advanced_assessment.skill_level)
    );
    println!(
        "  Expert: {:.2} ({})",
        expert_assessment.overall_score,
        format!("{:?}", expert_assessment.skill_level)
    );
}

#[test]
fn test_famous_progressions_classification() {
    let trie = ChordProgressionTrie::new();
    let analyzer = Analyzer::new(trie);
    let let_it_be = vec![
        Chord::new(1, 5).unwrap(),
        Chord::new(5, 5).unwrap(),
        Chord::new(6, 5).unwrap(),
        Chord::new(4, 5).unwrap(),
    ];
    let autumn_leaves = vec![
        Chord::new(6, 7).unwrap(),
        Chord::new(2, 7).unwrap(),
        Chord::new(5, 7).unwrap(),
        Chord::new(1, 7).unwrap(),
    ];
    let giant_steps_chord_1 = Chord::new(1, 7).unwrap();
    let mut giant_steps_chord_2 = Chord::new(5, 7).unwrap();
    giant_steps_chord_2.alterations.push("b9".to_string());
    let giant_steps_chord_3 = Chord::new(1, 7).unwrap();
    let mut giant_steps_chord_4 = Chord::new(3, 7).unwrap();
    giant_steps_chord_4.alterations.push("#11".to_string());

    let giant_steps = vec![
        giant_steps_chord_1,
        giant_steps_chord_2,
        giant_steps_chord_3,
        giant_steps_chord_4,
    ];

    let let_it_be_result = analyzer.assess_difficulty(&let_it_be, Some(75.0), Some((4, 4)));
    let autumn_leaves_result =
        analyzer.assess_difficulty(&autumn_leaves, Some(120.0), Some((4, 4)));
    let giant_steps_result = analyzer.assess_difficulty(&giant_steps, Some(290.0), Some((4, 4)));

    assert!(let_it_be_result.is_ok());
    assert!(autumn_leaves_result.is_ok());
    assert!(giant_steps_result.is_ok());

    let let_it_be_assessment = let_it_be_result.unwrap();
    let autumn_leaves_assessment = autumn_leaves_result.unwrap();
    let giant_steps_assessment = giant_steps_result.unwrap();
    assert!(
        let_it_be_assessment.overall_score < autumn_leaves_assessment.overall_score,
        "Let It Be ({:.2}) should be easier than Autumn Leaves ({:.2})",
        let_it_be_assessment.overall_score,
        autumn_leaves_assessment.overall_score
    );
    assert!(
        autumn_leaves_assessment.overall_score < giant_steps_assessment.overall_score,
        "Autumn Leaves ({:.2}) should be easier than Giant Steps ({:.2})",
        autumn_leaves_assessment.overall_score,
        giant_steps_assessment.overall_score
    );
    assert_eq!(
        giant_steps_assessment.skill_level,
        SkillLevel::Expert,
        "Giant Steps should be classified as Expert, got {:?}",
        giant_steps_assessment.skill_level
    );

    println!("✅ Famous progressions classification test passed:");
    println!(
        "  Let It Be: {:.2} ({})",
        let_it_be_assessment.overall_score,
        format!("{:?}", let_it_be_assessment.skill_level)
    );
    println!(
        "  Autumn Leaves: {:.2} ({})",
        autumn_leaves_assessment.overall_score,
        format!("{:?}", autumn_leaves_assessment.skill_level)
    );
    println!(
        "  Giant Steps: {:.2} ({})",
        giant_steps_assessment.overall_score,
        format!("{:?}", giant_steps_assessment.skill_level)
    );
}

#[test]
fn test_individual_chord_complexity_scoring() {
    let trie = ChordProgressionTrie::new();
    let analyzer = Analyzer::new(trie);
    let triad = Chord::new(1, 5).unwrap();
    let seventh = Chord::new(1, 7).unwrap();
    let ninth = Chord::new(1, 9).unwrap();
    let thirteenth = Chord::new(1, 13).unwrap();

    let triad_complexity = analyzer.calculate_single_chord_complexity(&triad);
    let seventh_complexity = analyzer.calculate_single_chord_complexity(&seventh);
    let ninth_complexity = analyzer.calculate_single_chord_complexity(&ninth);
    let thirteenth_complexity = analyzer.calculate_single_chord_complexity(&thirteenth);
    assert!(
        triad_complexity < seventh_complexity,
        "Triad should be simpler than seventh"
    );
    assert!(
        seventh_complexity < ninth_complexity,
        "Seventh should be simpler than ninth"
    );
    assert!(
        ninth_complexity < thirteenth_complexity,
        "Ninth should be simpler than thirteenth"
    );
    let mut altered_chord = Chord::new(1, 7).unwrap();
    altered_chord.alterations.push("#11".to_string());
    altered_chord.alterations.push("b9".to_string());

    let altered_complexity = analyzer.calculate_single_chord_complexity(&altered_chord);
    assert!(
        altered_complexity > seventh_complexity,
        "Altered chord should be more complex"
    );

    println!("✅ Individual chord complexity test passed:");
    println!("  I: {:.2}", triad_complexity);
    println!("  I7: {:.2}", seventh_complexity);
    println!("  I9: {:.2}", ninth_complexity);
    println!("  I13: {:.2}", thirteenth_complexity);
    println!("  I7#11b9: {:.2}", altered_complexity);
}

#[test]
fn test_harmonic_complexity_components() {
    let trie = ChordProgressionTrie::new();
    let analyzer = Analyzer::new(trie);
    analyzer.clear_cache();
    let simple_progression = vec![
        Chord::new(1, 5).unwrap(),
        Chord::new(4, 5).unwrap(),
        Chord::new(5, 5).unwrap(),
        Chord::new(1, 5).unwrap(),
    ];
    let complex_progression = vec![
        Chord::new(1, 9).unwrap(),
        Chord::new(6, 11).unwrap(),
        Chord::new(2, 9).unwrap(),
        Chord::new(5, 13).unwrap(),
    ];

    let simple_result = analyzer.assess_difficulty(&simple_progression, Some(120.0), Some((4, 4)));
    let complex_result =
        analyzer.assess_difficulty(&complex_progression, Some(120.0), Some((4, 4)));

    assert!(simple_result.is_ok());
    assert!(complex_result.is_ok());

    let simple_assessment = simple_result.unwrap();
    let complex_assessment = complex_result.unwrap();
    println!(
        "Simple progression harmonic complexity: {:.2}",
        simple_assessment.harmonic_complexity
    );
    println!(
        "Complex progression harmonic complexity: {:.2}",
        complex_assessment.harmonic_complexity
    );
    println!(
        "Simple extended harmonies: {}",
        simple_assessment.factors.extended_harmonies
    );
    println!(
        "Complex extended harmonies: {}",
        complex_assessment.factors.extended_harmonies
    );
    println!(
        "Simple avg chord complexity: {:.2}",
        simple_assessment.factors.avg_chord_complexity
    );
    println!(
        "Complex avg chord complexity: {:.2}",
        complex_assessment.factors.avg_chord_complexity
    );
    for (i, chord) in complex_progression.iter().enumerate() {
        let complexity = analyzer.calculate_single_chord_complexity(chord);
        println!(
            "Complex chord {} (type {}): complexity {:.2}",
            i, chord.chord_type, complexity
        );
    }
    assert!(
        complex_assessment.harmonic_complexity > simple_assessment.harmonic_complexity,
        "Complex progression harmonic complexity ({:.2}) should be higher than simple ({:.2})",
        complex_assessment.harmonic_complexity,
        simple_assessment.harmonic_complexity
    );
    assert_eq!(
        simple_assessment.factors.extended_harmonies, 0,
        "Simple progression should have no extended harmonies"
    );
    assert!(
        complex_assessment.factors.extended_harmonies > 0,
        "Complex progression should have extended harmonies"
    );

    println!("✅ Harmonic complexity components test passed:");
    println!(
        "  Simple I-IV-V-I: {:.2} harmonic complexity",
        simple_assessment.harmonic_complexity
    );
    println!(
        "  Complex extended: {:.2} harmonic complexity",
        complex_assessment.harmonic_complexity
    );
}

#[test]
fn test_melodic_complexity_interval_analysis() {
    let trie = ChordProgressionTrie::new();
    let analyzer = Analyzer::new(trie);
    let stepwise_progression = vec![
        Chord::new(1, 5).unwrap(),
        Chord::new(2, 5).unwrap(),
        Chord::new(3, 5).unwrap(),
        Chord::new(4, 5).unwrap(),
    ];
    let large_interval_progression = vec![
        Chord::new(1, 5).unwrap(),
        Chord::new(6, 5).unwrap(),
        Chord::new(3, 5).unwrap(),
        Chord::new(7, 5).unwrap(),
    ];

    let stepwise_result =
        analyzer.assess_difficulty(&stepwise_progression, Some(120.0), Some((4, 4)));
    let large_interval_result =
        analyzer.assess_difficulty(&large_interval_progression, Some(120.0), Some((4, 4)));

    assert!(stepwise_result.is_ok());
    assert!(large_interval_result.is_ok());

    let stepwise_assessment = stepwise_result.unwrap();
    let large_interval_assessment = large_interval_result.unwrap();
    assert!(
        large_interval_assessment.melodic_complexity > stepwise_assessment.melodic_complexity,
        "Large interval progression melodic complexity ({:.2}) should be higher than stepwise ({:.2})",
        large_interval_assessment.melodic_complexity,
        stepwise_assessment.melodic_complexity
    );

    println!("✅ Melodic complexity interval analysis test passed:");
    println!(
        "  Step-wise: {:.2} melodic complexity",
        stepwise_assessment.melodic_complexity
    );
    println!(
        "  Large intervals: {:.2} melodic complexity",
        large_interval_assessment.melodic_complexity
    );
}

#[test]
fn test_rhythmic_complexity_tempo_impact() {
    let trie = ChordProgressionTrie::new();
    let analyzer = Analyzer::new(trie);

    let progression = vec![
        Chord::new(1, 5).unwrap(),
        Chord::new(5, 5).unwrap(),
        Chord::new(6, 5).unwrap(),
        Chord::new(4, 5).unwrap(),
    ];
    let slow_result = analyzer.assess_difficulty(&progression, Some(80.0), Some((4, 4)));
    let medium_result = analyzer.assess_difficulty(&progression, Some(120.0), Some((4, 4)));
    let fast_result = analyzer.assess_difficulty(&progression, Some(180.0), Some((4, 4)));

    assert!(slow_result.is_ok());
    assert!(medium_result.is_ok());
    assert!(fast_result.is_ok());

    let slow_assessment = slow_result.unwrap();
    let medium_assessment = medium_result.unwrap();
    let fast_assessment = fast_result.unwrap();
    assert!(
        fast_assessment.rhythmic_complexity >= medium_assessment.rhythmic_complexity,
        "Fast tempo rhythmic complexity ({:.2}) should be >= medium tempo ({:.2})",
        fast_assessment.rhythmic_complexity,
        medium_assessment.rhythmic_complexity
    );

    println!("✅ Rhythmic complexity tempo impact test passed:");
    println!(
        "  Slow (80 BPM): {:.2} rhythmic complexity",
        slow_assessment.rhythmic_complexity
    );
    println!(
        "  Medium (120 BPM): {:.2} rhythmic complexity",
        medium_assessment.rhythmic_complexity
    );
    println!(
        "  Fast (180 BPM): {:.2} rhythmic complexity",
        fast_assessment.rhythmic_complexity
    );
}

#[test]
fn test_technical_complexity_voice_leading() {
    let trie = ChordProgressionTrie::new();
    let analyzer = Analyzer::new(trie);
    let smooth_progression = vec![
        Chord::new(1, 7).unwrap(),
        Chord::new(2, 7).unwrap(),
        Chord::new(3, 7).unwrap(),
    ];
    let mut complex_chord_1 = Chord::new(1, 7).unwrap();
    complex_chord_1.inversion = 0;
    let mut complex_chord_2 = Chord::new(6, 7).unwrap();
    complex_chord_2.inversion = 1;
    let mut complex_chord_3 = Chord::new(2, 7).unwrap();
    complex_chord_3.inversion = 2;

    let complex_progression = vec![complex_chord_1, complex_chord_2, complex_chord_3];

    let smooth_result = analyzer.assess_difficulty(&smooth_progression, Some(120.0), Some((4, 4)));
    let complex_result =
        analyzer.assess_difficulty(&complex_progression, Some(120.0), Some((4, 4)));

    assert!(smooth_result.is_ok());
    assert!(complex_result.is_ok());

    let smooth_assessment = smooth_result.unwrap();
    let complex_assessment = complex_result.unwrap();
    assert!(
        complex_assessment.technical_complexity > smooth_assessment.technical_complexity,
        "Complex voice leading technical complexity ({:.2}) should be higher than smooth ({:.2})",
        complex_assessment.technical_complexity,
        smooth_assessment.technical_complexity
    );

    println!("✅ Technical complexity voice leading test passed:");
    println!(
        "  Smooth: {:.2} technical complexity",
        smooth_assessment.technical_complexity
    );
    println!(
        "  Complex: {:.2} technical complexity",
        complex_assessment.technical_complexity
    );
}

#[test]
fn test_polynomial_model_application() {
    let trie = ChordProgressionTrie::new();
    let analyzer = Analyzer::new(trie);

    let progression = vec![
        Chord::new(1, 7).unwrap(),
        Chord::new(6, 7).unwrap(),
        Chord::new(2, 7).unwrap(),
        Chord::new(5, 7).unwrap(),
    ];

    let result = analyzer.assess_difficulty(&progression, Some(120.0), Some((4, 4)));
    assert!(result.is_ok());

    let assessment = result.unwrap();
    let expected_weighted_input = assessment.harmonic_complexity * 0.35
        + assessment.rhythmic_complexity * 0.25
        + assessment.technical_complexity * 0.25
        + assessment.melodic_complexity * 0.15;
    let x = expected_weighted_input / 10.0;
    let expected_score = (0.1 * x.powi(3) + 0.2 * x.powi(2) + 0.8 * x + 0.2) * 10.0;
    let clamped_expected = expected_score.max(0.0).min(10.0);
    let score_diff = (assessment.overall_score - clamped_expected).abs();
    assert!(
        score_diff < 0.01,
        "Polynomial model application mismatch: expected {:.2}, got {:.2}",
        clamped_expected,
        assessment.overall_score
    );

    println!("✅ Polynomial model application test passed:");
    println!("  Weighted input: {:.3}", expected_weighted_input);
    println!("  Expected score: {:.2}", clamped_expected);
    println!("  Actual score: {:.2}", assessment.overall_score);
}



#[test]
fn test_polynomial_model_score_distribution() {
    let trie = ChordProgressionTrie::new();
    let analyzer = Analyzer::new(trie);
    let test_cases = vec![
        (
            "Minimal complexity",
            vec![Chord::new(1, 5).unwrap(), Chord::new(1, 5).unwrap()],
            75.0,
            (4, 4),
            3.0..4.0,
        ),
        (
            "Low complexity",
            vec![
                Chord::new(1, 5).unwrap(),
                Chord::new(5, 5).unwrap(),
                Chord::new(1, 5).unwrap(),
            ],
            100.0,
            (4, 4),
            3.5..5.0,
        ),
        (
            "Medium complexity",
            vec![
                Chord::new(1, 7).unwrap(),
                Chord::new(6, 7).unwrap(),
                Chord::new(2, 7).unwrap(),
                Chord::new(5, 7).unwrap(),
            ],
            140.0,
            (4, 4),
            5.0..7.5,
        ),
        (
            "High complexity",
            vec![
                Chord::new(1, 9).unwrap(),
                Chord::new(6, 11).unwrap(),
                Chord::new(2, 9).unwrap(),
                Chord::new(5, 13).unwrap(),
            ],
            180.0,
            (7, 8),
            7.0..9.5,
        ),
        (
            "Maximum complexity",
            vec![
                Chord::new(1, 13).unwrap(),
                Chord::new(7, 13).unwrap(),
                Chord::new(3, 13).unwrap(),
                Chord::new(2, 13).unwrap(),
                Chord::new(6, 13).unwrap(),
                Chord::new(4, 13).unwrap(),
            ],
            300.0,
            (5, 4),
            8.0..10.0,
        ),
    ];

    println!("Testing polynomial model score distribution:");

    for (name, progression, tempo, time_sig, expected_range) in test_cases {
        let result = analyzer.assess_difficulty(&progression, Some(tempo), Some(time_sig));
        assert!(result.is_ok(), "Failed to assess difficulty for {}", name);

        let assessment = result.unwrap();
        let score = assessment.overall_score;

        println!(
            "  {}: Score {:.2} (expected {:.1}-{:.1})",
            name, score, expected_range.start, expected_range.end
        );

        assert!(
            expected_range.contains(&score),
            "{}: Score {:.2} not in expected range {:.1}-{:.1}",
            name,
            score,
            expected_range.start,
            expected_range.end
        );
    }
}

#[test]
fn test_skill_level_classification_boundaries() {
    let trie = ChordProgressionTrie::new();
    let analyzer = Analyzer::new(trie);
    let beginner_progression = vec![
        Chord::new(1, 5).unwrap(),
        Chord::new(5, 5).unwrap(),
    ];

    let intermediate_progression = vec![
        Chord::new(1, 7).unwrap(),
        Chord::new(4, 5).unwrap(),
        Chord::new(5, 7).unwrap(),
    ];

    let advanced_progression = vec![
        Chord::new(1, 9).unwrap(),
        Chord::new(6, 7).unwrap(),
        Chord::new(2, 9).unwrap(),
        Chord::new(5, 7).unwrap(),
    ];

    let expert_progression = vec![
        Chord::new(1, 13).unwrap(),
        Chord::new(3, 11).unwrap(),
        Chord::new(6, 13).unwrap(),
        Chord::new(2, 11).unwrap(),
        Chord::new(5, 13).unwrap(),
    ];

    let test_cases = vec![
        (
            "Beginner candidate",
            beginner_progression,
            80.0,
            SkillLevel::Beginner,
        ),
        (
            "Intermediate candidate",
            intermediate_progression,
            120.0,
            SkillLevel::Intermediate,
        ),
        (
            "Advanced candidate",
            advanced_progression,
            160.0,
            SkillLevel::Advanced,
        ),
        (
            "Expert candidate",
            expert_progression,
            200.0,
            SkillLevel::Expert,
        ),
    ];

    println!("Testing skill level classification:");

    for (name, progression, tempo, expected_level) in test_cases {
        let result = analyzer.assess_difficulty(&progression, Some(tempo), Some((4, 4)));
        assert!(result.is_ok(), "Failed to assess difficulty for {}", name);

        let assessment = result.unwrap();

        println!(
            "  {}: Score {:.2}, Level {:?} (expected {:?})",
            name, assessment.overall_score, assessment.skill_level, expected_level
        );
    }
}

#[test]
fn test_weighted_input_calculation() {
    let trie = ChordProgressionTrie::new();
    let analyzer = Analyzer::new(trie);
    let test_progression = vec![
        Chord::new(1, 7).unwrap(),
        Chord::new(6, 7).unwrap(),
        Chord::new(2, 7).unwrap(),
        Chord::new(5, 7).unwrap(),
    ];

    let assessment = analyzer
        .assess_difficulty(&test_progression, Some(120.0), Some((4, 4)))
        .unwrap();
    let weights = [0.35, 0.25, 0.25, 0.15];
    let components = [
        assessment.harmonic_complexity,
        assessment.rhythmic_complexity,
        assessment.technical_complexity,
        assessment.melodic_complexity,
    ];

    let manual_weighted_input = components
        .iter()
        .zip(weights.iter())
        .map(|(comp, weight)| comp * weight)
        .sum::<f64>();

    println!("Component weighting test:");
    println!(
        "  Harmonic: {:.2} × {:.0}% = {:.2}",
        components[0],
        weights[0] * 100.0,
        components[0] * weights[0]
    );
    println!(
        "  Rhythmic: {:.2} × {:.0}% = {:.2}",
        components[1],
        weights[1] * 100.0,
        components[1] * weights[1]
    );
    println!(
        "  Technical: {:.2} × {:.0}% = {:.2}",
        components[2],
        weights[2] * 100.0,
        components[2] * weights[2]
    );
    println!(
        "  Melodic: {:.2} × {:.0}% = {:.2}",
        components[3],
        weights[3] * 100.0,
        components[3] * weights[3]
    );
    println!("  Total weighted input: {:.2}", manual_weighted_input);
    println!("  Overall score: {:.2}", assessment.overall_score);
    assert!(
        (0.0..=10.0).contains(&manual_weighted_input),
        "Weighted input should be 0-10, got {:.2}",
        manual_weighted_input
    );
    let harmonic_contribution = components[0] * weights[0];
    let other_contributions = components
        .iter()
        .skip(1)
        .zip(weights.iter().skip(1))
        .map(|(comp, weight)| comp * weight)
        .collect::<Vec<_>>();

    println!("  Harmonic contribution: {:.2}", harmonic_contribution);
    println!("  Other contributions: {:?}", other_contributions);
}

#[test]
fn test_progression_difficulty_ordering() {
    let trie = ChordProgressionTrie::new();
    let analyzer = Analyzer::new(trie);
    let progressions = vec![
        (
            "Simple triad",
            vec![
                Chord::new(1, 5).unwrap(),
                Chord::new(5, 5).unwrap(),
                Chord::new(1, 5).unwrap(),
            ],
        ),
        (
            "Basic pop progression",
            vec![
                Chord::new(1, 5).unwrap(),
                Chord::new(6, 5).unwrap(),
                Chord::new(4, 5).unwrap(),
                Chord::new(5, 5).unwrap(),
            ],
        ),
        (
            "Seventh chords",
            vec![
                Chord::new(1, 7).unwrap(),
                Chord::new(6, 7).unwrap(),
                Chord::new(2, 7).unwrap(),
                Chord::new(5, 7).unwrap(),
            ],
        ),
        (
            "Extended harmonies",
            vec![
                Chord::new(1, 9).unwrap(),
                Chord::new(6, 11).unwrap(),
                Chord::new(2, 9).unwrap(),
                Chord::new(5, 13).unwrap(),
            ],
        ),
        (
            "Complex jazz",
            vec![
                Chord::new(1, 13).unwrap(),
                Chord::new(3, 11).unwrap(),
                Chord::new(6, 13).unwrap(),
                Chord::new(2, 11).unwrap(),
                Chord::new(5, 13).unwrap(),
                Chord::new(1, 9).unwrap(),
            ],
        ),
    ];

    let mut results = Vec::new();

    println!("Testing progression difficulty ordering:");

    for (name, progression) in progressions {
        let assessment = analyzer
            .assess_difficulty(&progression, Some(120.0), Some((4, 4)))
            .unwrap();
        results.push((name, assessment.overall_score));
        println!("  {}: {:.2}", name, assessment.overall_score);
    }
    for i in 1..results.len() {
        let (prev_name, prev_score) = &results[i - 1];
        let (curr_name, curr_score) = &results[i];
        if curr_score <= prev_score {
            println!(
                "  Warning: {} ({:.2}) not harder than {} ({:.2})",
                curr_name, curr_score, prev_name, prev_score
            );
        }
    }
    let simple_score = results[0].1;
    let complex_score = results[results.len() - 1].1;

    assert!(
        complex_score > simple_score + 2.0,
        "Complex jazz ({:.2}) should be significantly harder than simple triad ({:.2})",
        complex_score,
        simple_score
    );
}



#[test]
fn test_calculate_single_chord_complexity_direct() {
    let trie = ChordProgressionTrie::new();
    let analyzer = Analyzer::new(trie);
    let triad = Chord::new(1, 5).unwrap();
    let seventh = Chord::new(1, 7).unwrap();
    let ninth = Chord::new(1, 9).unwrap();
    let eleventh = Chord::new(1, 11).unwrap();
    let thirteenth = Chord::new(1, 13).unwrap();

    let triad_complexity = analyzer.calculate_single_chord_complexity(&triad);
    let seventh_complexity = analyzer.calculate_single_chord_complexity(&seventh);
    let ninth_complexity = analyzer.calculate_single_chord_complexity(&ninth);
    let eleventh_complexity = analyzer.calculate_single_chord_complexity(&eleventh);
    let thirteenth_complexity = analyzer.calculate_single_chord_complexity(&thirteenth);

    println!("Individual chord complexities:");
    println!("  Triad (I): {:.2}", triad_complexity);
    println!("  Seventh (I7): {:.2}", seventh_complexity);
    println!("  Ninth (I9): {:.2}", ninth_complexity);
    println!("  Eleventh (I11): {:.2}", eleventh_complexity);
    println!("  Thirteenth (I13): {:.2}", thirteenth_complexity);
    assert!(triad_complexity < seventh_complexity, 
        "Triad ({:.2}) should be simpler than seventh ({:.2})", triad_complexity, seventh_complexity);
    assert!(seventh_complexity < ninth_complexity, 
        "Seventh ({:.2}) should be simpler than ninth ({:.2})", seventh_complexity, ninth_complexity);
    assert!(ninth_complexity < eleventh_complexity, 
        "Ninth ({:.2}) should be simpler than eleventh ({:.2})", ninth_complexity, eleventh_complexity);
    assert!(eleventh_complexity < thirteenth_complexity, 
        "Eleventh ({:.2}) should be simpler than thirteenth ({:.2})", eleventh_complexity, thirteenth_complexity);
    assert!(triad_complexity >= 1.0 && triad_complexity <= 2.0, 
        "Triad complexity should be 1.0-2.0: {:.2}", triad_complexity);
    assert!(thirteenth_complexity >= 3.0 && thirteenth_complexity <= 5.0, 
        "Thirteenth complexity should be 3.0-5.0: {:.2}", thirteenth_complexity);
}

#[test]
fn test_is_extended_harmony_detection() {
    let trie = ChordProgressionTrie::new();
    let analyzer = Analyzer::new(trie);
    let triad = Chord::new(1, 5).unwrap();
    let seventh = Chord::new(1, 7).unwrap();
    let ninth = Chord::new(1, 9).unwrap();
    let eleventh = Chord::new(1, 11).unwrap();
    let thirteenth = Chord::new(1, 13).unwrap();
    let progression = vec![triad.clone(), seventh.clone(), ninth.clone(), eleventh.clone(), thirteenth.clone()];
    let result = analyzer.assess_difficulty(&progression, Some(120.0), Some((4, 4)));
    assert!(result.is_ok());
    let assessment = result.unwrap();

    println!("Extended harmony detection test:");
    println!("  Progression length: {}", progression.len());
    println!("  Extended harmonies detected: {}", assessment.factors.extended_harmonies);
    println!("  Expected extended harmonies: 4 (all except triad)");
    assert_eq!(assessment.factors.extended_harmonies, 4, 
        "Should detect 4 extended harmonies, got {}", assessment.factors.extended_harmonies);
    assert!(assessment.factors.avg_chord_complexity > 1.5, 
        "Average chord complexity should be > 1.5 with extended chords, got {:.2}", 
        assessment.factors.avg_chord_complexity);
}

#[test]
fn test_average_chord_complexity_calculation() {
    let trie = ChordProgressionTrie::new();
    let analyzer = Analyzer::new(trie);
    let simple_progression = vec![
        Chord::new(1, 5).unwrap(),
        Chord::new(4, 5).unwrap(),
        Chord::new(5, 5).unwrap(),
        Chord::new(1, 5).unwrap(),
    ];

    let simple_result = analyzer.assess_difficulty(&simple_progression, Some(120.0), Some((4, 4)));
    assert!(simple_result.is_ok());
    let simple_assessment = simple_result.unwrap();

    println!("Simple progression (all triads):");
    println!("  Average chord complexity: {:.2}", simple_assessment.factors.avg_chord_complexity);
    println!("  Extended harmonies: {}", simple_assessment.factors.extended_harmonies);
    let complex_progression = vec![
        Chord::new(1, 9).unwrap(),
        Chord::new(6, 11).unwrap(),
        Chord::new(2, 9).unwrap(),
        Chord::new(5, 13).unwrap(),
    ];

    let complex_result = analyzer.assess_difficulty(&complex_progression, Some(120.0), Some((4, 4)));
    assert!(complex_result.is_ok());
    let complex_assessment = complex_result.unwrap();

    println!("\nComplex progression (all extended):");
    println!("  Average chord complexity: {:.2}", complex_assessment.factors.avg_chord_complexity);
    println!("  Extended harmonies: {}", complex_assessment.factors.extended_harmonies);
    let manual_simple_avg = simple_progression.iter()
        .map(|chord| analyzer.calculate_single_chord_complexity(chord))
        .sum::<f64>() / simple_progression.len() as f64;

    let manual_complex_avg = complex_progression.iter()
        .map(|chord| analyzer.calculate_single_chord_complexity(chord))
        .sum::<f64>() / complex_progression.len() as f64;

    println!("\nManual calculations:");
    println!("  Simple manual average: {:.2}", manual_simple_avg);
    println!("  Complex manual average: {:.2}", manual_complex_avg);
    assert!((simple_assessment.factors.avg_chord_complexity - manual_simple_avg).abs() < 0.01,
        "Simple progression: automatic {:.2} vs manual {:.2}", 
        simple_assessment.factors.avg_chord_complexity, manual_simple_avg);

    assert!((complex_assessment.factors.avg_chord_complexity - manual_complex_avg).abs() < 0.01,
        "Complex progression: automatic {:.2} vs manual {:.2}", 
        complex_assessment.factors.avg_chord_complexity, manual_complex_avg);
    assert!(complex_assessment.factors.avg_chord_complexity > simple_assessment.factors.avg_chord_complexity + 1.0,
        "Complex avg ({:.2}) should be > simple avg ({:.2}) + 1.0", 
        complex_assessment.factors.avg_chord_complexity, simple_assessment.factors.avg_chord_complexity);
    assert_eq!(simple_assessment.factors.extended_harmonies, 0, 
        "Simple progression should have 0 extended harmonies");
    assert_eq!(complex_assessment.factors.extended_harmonies, 4, 
        "Complex progression should have 4 extended harmonies");
}

#[test]
fn test_parallel_iterator_vs_sequential() {
    let trie = ChordProgressionTrie::new();
    let analyzer = Analyzer::new(trie);
    let test_progression = vec![
        Chord::new(1, 9).unwrap(),
        Chord::new(6, 11).unwrap(),
        Chord::new(2, 9).unwrap(),
        Chord::new(5, 13).unwrap(),
    ];
    let sequential_avg = test_progression.iter()
        .map(|chord| analyzer.calculate_single_chord_complexity(chord))
        .sum::<f64>() / test_progression.len() as f64;
    let parallel_avg = test_progression.iter()
        .map(|chord| analyzer.calculate_single_chord_complexity(chord))
        .sum::<f64>() / test_progression.len() as f64;

    println!("Iterator comparison:");
    println!("  Sequential average: {:.6}", sequential_avg);
    println!("  Parallel average: {:.6}", parallel_avg);
    assert!((sequential_avg - parallel_avg).abs() < 0.000001,
        "Sequential ({:.6}) and parallel ({:.6}) should match", sequential_avg, parallel_avg);
    let assessment = analyzer.assess_difficulty(&test_progression, Some(120.0), Some((4, 4))).unwrap();
    
    println!("  Assessment average: {:.6}", assessment.factors.avg_chord_complexity);
    assert!((assessment.factors.avg_chord_complexity - sequential_avg).abs() < 0.01,
        "Assessment ({:.6}) should match manual calculation ({:.6})", 
        assessment.factors.avg_chord_complexity, sequential_avg);
}

#[test]
fn test_complexity_factors_debug_output() {
    let trie = ChordProgressionTrie::new();
    let analyzer = Analyzer::new(trie);
    let simple_progression = vec![
        Chord::new(1, 5).unwrap(),
        Chord::new(4, 5).unwrap(),
        Chord::new(5, 5).unwrap(),
        Chord::new(1, 5).unwrap(),
    ];

    let complex_progression = vec![
        Chord::new(1, 9).unwrap(),
        Chord::new(6, 11).unwrap(),
        Chord::new(2, 9).unwrap(),
        Chord::new(5, 13).unwrap(),
    ];
    let simple_result = analyzer.assess_difficulty(&simple_progression, Some(120.0), Some((4, 4)));
    let complex_result = analyzer.assess_difficulty(&complex_progression, Some(120.0), Some((4, 4)));

    assert!(simple_result.is_ok() && complex_result.is_ok());

    let simple_assessment = simple_result.unwrap();
    let complex_assessment = complex_result.unwrap();

    println!("\n=== DETAILED COMPLEXITY FACTOR ANALYSIS ===");
    
    println!("\nSimple Progression (I-IV-V-I):");
    println!("  Unique chords: {}", simple_assessment.factors.unique_chords);
    println!("  Avg chord complexity: {:.4}", simple_assessment.factors.avg_chord_complexity);
    println!("  Extended harmonies: {}", simple_assessment.factors.extended_harmonies);
    println!("  Voice leading complexity: {:.4}", simple_assessment.factors.voice_leading_complexity);
    println!("  Harmonic complexity: {:.4}", simple_assessment.harmonic_complexity);

    println!("\nComplex Progression (I9-vi11-ii9-V13):");
    println!("  Unique chords: {}", complex_assessment.factors.unique_chords);
    println!("  Avg chord complexity: {:.4}", complex_assessment.factors.avg_chord_complexity);
    println!("  Extended harmonies: {}", complex_assessment.factors.extended_harmonies);
    println!("  Voice leading complexity: {:.4}", complex_assessment.factors.voice_leading_complexity);
    println!("  Harmonic complexity: {:.4}", complex_assessment.harmonic_complexity);
    println!("\nIndividual chord complexities (Simple):");
    for (i, chord) in simple_progression.iter().enumerate() {
        let complexity = analyzer.calculate_single_chord_complexity(chord);
        println!("  Chord {} (type {}): {:.4}", i, chord.chord_type, complexity);
    }

    println!("\nIndividual chord complexities (Complex):");
    for (i, chord) in complex_progression.iter().enumerate() {
        let complexity = analyzer.calculate_single_chord_complexity(chord);
        println!("  Chord {} (type {}): {:.4}", i, chord.chord_type, complexity);
    }
    assert!(complex_assessment.factors.extended_harmonies > simple_assessment.factors.extended_harmonies,
        "Complex should have more extended harmonies than simple");
    
    assert!(complex_assessment.factors.avg_chord_complexity > simple_assessment.factors.avg_chord_complexity + 1.0,
        "Complex should have significantly higher average chord complexity");
}

#[test]
fn test_caching_issue_diagnosis() {
    let trie = ChordProgressionTrie::new();
    let analyzer = Analyzer::new(trie);
    let analyzer1 = Analyzer::new(ChordProgressionTrie::new());
    let simple_progression = vec![
        Chord::new(1, 5).unwrap(),
        Chord::new(4, 5).unwrap(),
        Chord::new(5, 5).unwrap(),
        Chord::new(1, 5).unwrap(),
    ];
    let simple_result = analyzer1.assess_difficulty(&simple_progression, Some(120.0), Some((4, 4))).unwrap();
    let analyzer2 = Analyzer::new(ChordProgressionTrie::new());
    let complex_progression = vec![
        Chord::new(1, 9).unwrap(),
        Chord::new(6, 11).unwrap(),
        Chord::new(2, 9).unwrap(),
        Chord::new(5, 13).unwrap(),
    ];
    let complex_result = analyzer2.assess_difficulty(&complex_progression, Some(120.0), Some((4, 4))).unwrap();
    
    println!("Fresh analyzer test (no shared cache):");
    println!("  Simple - Avg: {:.4}, Extended: {}", simple_result.factors.avg_chord_complexity, simple_result.factors.extended_harmonies);
    println!("  Complex - Avg: {:.4}, Extended: {}", complex_result.factors.avg_chord_complexity, complex_result.factors.extended_harmonies);
    analyzer.clear_cache();
    let simple_sequential = analyzer.assess_difficulty(&simple_progression, Some(120.0), Some((4, 4))).unwrap();
    let complex_sequential = analyzer.assess_difficulty(&complex_progression, Some(120.0), Some((4, 4))).unwrap();
    
    println!("\nSame analyzer, sequential (potential cache issue):");
    println!("  Simple - Avg: {:.4}, Extended: {}", simple_sequential.factors.avg_chord_complexity, simple_sequential.factors.extended_harmonies);
    println!("  Complex - Avg: {:.4}, Extended: {}", complex_sequential.factors.avg_chord_complexity, complex_sequential.factors.extended_harmonies);
    analyzer.clear_cache();
    let complex_first = analyzer.assess_difficulty(&complex_progression, Some(120.0), Some((4, 4))).unwrap();
    let simple_second = analyzer.assess_difficulty(&simple_progression, Some(120.0), Some((4, 4))).unwrap();
    
    println!("\nSame analyzer, reverse order:");
    println!("  Complex first - Avg: {:.4}, Extended: {}", complex_first.factors.avg_chord_complexity, complex_first.factors.extended_harmonies);
    println!("  Simple second - Avg: {:.4}, Extended: {}", simple_second.factors.avg_chord_complexity, simple_second.factors.extended_harmonies);
    assert_eq!(simple_result.factors.avg_chord_complexity, simple_sequential.factors.avg_chord_complexity, 
        "Simple progression should have consistent results across analyzers");
    assert_eq!(complex_result.factors.avg_chord_complexity, complex_sequential.factors.avg_chord_complexity, 
        "Complex progression should have consistent results across analyzers");
    assert!(complex_result.factors.avg_chord_complexity > simple_result.factors.avg_chord_complexity + 1.0,
        "Complex should be significantly harder than simple (fresh analyzers)");
    assert!(complex_sequential.factors.avg_chord_complexity > simple_sequential.factors.avg_chord_complexity + 1.0,
        "Complex should be significantly harder than simple (sequential)");
}
