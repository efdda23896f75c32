//! Configuration values and operational limits of the engine.

use vstd::prelude::*;
use crate::error::ConfigError;
use crate::fixed::Fixed;
use crate::text::decimal_text;

verus! {

/// Facts about the application.
#[derive(Debug, Clone, Copy, PartialEq, Eq)]
pub struct ApplicationMetadata {
    pub version: &'static str,
    pub secret_key: &'static str,
    pub encryption_salt: &'static str,
    pub hash_salt: &'static str,
    pub hash_alphabet: &'static str,
    pub hash_min_length: u8,
}

/// Constants of music theory.
#[derive(Debug, Clone, Copy, PartialEq, Eq)]
pub struct MusicalConstants {
    pub scale_degrees: u8,
    pub chromatic_notes: u8,
    pub octave_range: u8,
    pub middle_c_midi: u8,
    pub default_octave: u8,
    pub chord_types: [u8; 5],
    pub max_inversions: u8,
    pub max_extensions: u8,
    pub ticks_per_beat: u8,
    pub beats_per_measure: u8,
    pub default_tempo: u16,
    pub min_tempo: u16,
    pub max_tempo: u16,
}

/// Parameters of the analysis.
#[derive(Debug, Clone, Copy, PartialEq, Eq)]
pub struct AnalysisParameters {
    pub complexity_scale_max: Fixed,
    pub novelty_threshold: Fixed,
    pub tension_scale_max: Fixed,
    pub difficulty_percentile_max: u8,
}

/// Time budgets, in milliseconds.
#[derive(Debug, Clone, Copy, PartialEq, Eq)]
pub struct PerformanceThresholds {
    pub chord_lookup_max_ms: u32,
    pub chord_suggestion_max_ms: u32,
    pub music_analysis_max_ms: u32,
    pub asset_loading_max_ms: u32,
    pub ui_response_max_ms: u32,
}

/// Memory limits, in megabytes and entries.
#[derive(Debug, Clone, Copy, PartialEq, Eq)]
pub struct MemoryLimits {
    pub memory_usage_max_mb: u32,
    pub cache_size_max_entries: u32,
    pub object_pool_size: u32,
    pub trie_memory_max_mb: u32,
}

/// Limits on what one call may ask for.
#[derive(Debug, Clone, Copy, PartialEq, Eq)]
pub struct ProcessingLimits {
    pub max_pattern_length: u8,
    pub max_suggestions: u8,
    pub max_batch_size: u8,
    pub max_concurrent_requests: u8,
}

/// Constants of the weighting formulas.
#[derive(Debug, Clone, Copy, PartialEq, Eq)]
pub struct AlgorithmConstants {
    pub context_bonus_forward: Fixed,
    pub statistical_strength_divisor: Fixed,
    pub complexity_penalty_factor: Fixed,
    pub max_pattern_length: u8,
    pub min_frequency_threshold: u32,
    pub cache_size_limit: u32,
    pub memory_warning_threshold: u32,
    pub performance_target_ms: u32,
}

/// Thresholds that a suggestion has to pass.
#[derive(Debug, Clone, Copy, PartialEq, Eq)]
pub struct QualityThresholds {
    pub min_suggestion_weight: Fixed,
    pub max_suggestions_per_query: u8,
    pub diversity_threshold: Fixed,
    pub confidence_threshold: Fixed,
}

/// The facts about this application.
pub fn application() -> (a: ApplicationMetadata)
    ensures
        a.version@ == "2.35.2"@,
        a.hash_min_length == 8,
{
    ApplicationMetadata {
        version: "2.35.2",
        secret_key: "MANATEE",
        encryption_salt: "M70XExr448",
        hash_salt: "XI0Y4UFrK6EPLnarrI4y",
        hash_alphabet: "abcdefghijklmnopqrstuvwxyzABCDEFGHIJKLMNOPQRSTUVWXYZ1234567890_-",
        hash_min_length: 8,
    }
}

/// The constants of music theory that the engine works with.
pub fn musical() -> (m: MusicalConstants)
    ensures
        m.scale_degrees == 7,
        m.chromatic_notes == 12,
        m.chord_types@ == seq![5u8, 7u8, 9u8, 11u8, 13u8],
        m.ticks_per_beat == 24,
        m.min_tempo == 60,
        m.max_tempo == 200,
        m.valid(),
{
    MusicalConstants {
        scale_degrees: 7,
        chromatic_notes: 12,
        octave_range: 10,
        middle_c_midi: 60,
        default_octave: 4,
        chord_types: [5, 7, 9, 11, 13],
        max_inversions: 4,
        max_extensions: 6,
        ticks_per_beat: 24,
        beats_per_measure: 4,
        default_tempo: 120,
        min_tempo: 60,
        max_tempo: 200,
    }
}

/// The parameters of the analysis.
pub fn analysis() -> (a: AnalysisParameters)
    ensures
        a.complexity_scale_max.micros == 10_000_000,
        a.novelty_threshold.micros == 150_000,
        a.tension_scale_max.micros == 100_000_000,
        a.difficulty_percentile_max == 99,
{
    AnalysisParameters {
        complexity_scale_max: Fixed { micros: 10_000_000 },
        novelty_threshold: Fixed { micros: 150_000 },
        tension_scale_max: Fixed { micros: 100_000_000 },
        difficulty_percentile_max: 99,
    }
}

/// The time budgets: one millisecond for a chord lookup, fifty for a
/// suggestion.
pub fn performance() -> (p: PerformanceThresholds)
    ensures
        p.chord_lookup_max_ms == 1,
        p.chord_suggestion_max_ms == 50,
        p.music_analysis_max_ms == 200,
        p.valid(),
{
    PerformanceThresholds {
        chord_lookup_max_ms: 1,
        chord_suggestion_max_ms: 50,
        music_analysis_max_ms: 200,
        asset_loading_max_ms: 30000,
        ui_response_max_ms: 16,
    }
}

/// The memory limits.
pub fn memory() -> (m: MemoryLimits)
    ensures
        m.memory_usage_max_mb == 150,
        m.cache_size_max_entries == 10000,
{
    MemoryLimits {
        memory_usage_max_mb: 150,
        cache_size_max_entries: 10000,
        object_pool_size: 1000,
        trie_memory_max_mb: 100,
    }
}

/// The limits on one call: patterns of up to twenty chords, up to a hundred
/// suggestions, up to fifty chords in a batch.
pub fn processing() -> (p: ProcessingLimits)
    ensures
        p.max_pattern_length == 20,
        p.max_suggestions == 100,
        p.max_batch_size == 50,
{
    ProcessingLimits {
        max_pattern_length: 20,
        max_suggestions: 100,
        max_batch_size: 50,
        max_concurrent_requests: 10,
    }
}

/// The constants of the weighting formulas: a forward bonus of 1.7 and a
/// divisor of 10000.
pub fn algorithm() -> (a: AlgorithmConstants)
    ensures
        a.context_bonus_forward.micros == 1_700_000,
        a.statistical_strength_divisor.micros == 10_000_000_000,
        a.max_pattern_length == 20,
{
    AlgorithmConstants {
        context_bonus_forward: Fixed { micros: 1_700_000 },
        statistical_strength_divisor: Fixed { micros: 10_000_000_000 },
        complexity_penalty_factor: Fixed { micros: 50_000 },
        max_pattern_length: 20,
        min_frequency_threshold: 5,
        cache_size_limit: 10000,
        memory_warning_threshold: 100,
        performance_target_ms: 50,
    }
}

/// The thresholds for suggestions: a confidence of at least 0.3.
pub fn quality() -> (q: QualityThresholds)
    ensures
        q.confidence_threshold.micros == 300_000,
        q.min_suggestion_weight.micros == 10_000,
        q.max_suggestions_per_query == 100,
{
    QualityThresholds {
        min_suggestion_weight: Fixed { micros: 10_000 },
        max_suggestions_per_query: 100,
        diversity_threshold: Fixed { micros: 800_000 },
        confidence_threshold: Fixed { micros: 300_000 },
    }
}

/// Configuration values that can be checked.
pub trait Validate {
    /// Whether the values are acceptable.
    spec fn valid(&self) -> bool;

    /// Checks the values.
    fn validate(&self) -> (r: Result<(), ConfigError>)
        ensures
            r is Ok <==> self.valid(),
    ;
}

impl Validate for MusicalConstants {
    /// There is at least one scale degree, there are twelve chromatic notes,
    /// and the slowest tempo is below the fastest.
    open spec fn valid(&self) -> bool {
        self.scale_degrees != 0 && self.chromatic_notes == 12 && self.min_tempo < self.max_tempo
    }

    fn validate(&self) -> (r: Result<(), ConfigError>)
        ensures
            r matches Err(e) ==> (if self.scale_degrees == 0 || self.chromatic_notes != 12 {
                e is InvalidValue
            } else {
                e is OutOfRange
            }),
    {
        if self.scale_degrees == 0 {
            return Err(
                ConfigError::InvalidValue {
                    field: String::from_str("scale_degrees"),
                    value: String::from_str("0"),
                },
            );
        }
        if self.chromatic_notes != 12 {
            return Err(
                ConfigError::InvalidValue {
                    field: String::from_str("chromatic_notes"),
                    value: decimal_text(self.chromatic_notes as u64),
                },
            );
        }
        if self.min_tempo >= self.max_tempo {
            return Err(
                ConfigError::OutOfRange {
                    field: String::from_str("tempo_range"),
                    min: decimal_text(self.min_tempo as u64),
                    max: decimal_text(self.max_tempo as u64),
                },
            );
        }
        Ok(())
    }
}

impl Validate for PerformanceThresholds {
    /// A chord lookup has a budget, and the interface answers within 32
    /// milliseconds.
    open spec fn valid(&self) -> bool {
        self.chord_lookup_max_ms != 0 && self.ui_response_max_ms <= 32
    }

    fn validate(&self) -> (r: Result<(), ConfigError>)
        ensures
            r matches Err(e) ==> (if self.chord_lookup_max_ms == 0 {
                e is InvalidValue
            } else {
                e is OutOfRange
            }),
    {
        if self.chord_lookup_max_ms == 0 {
            return Err(
                ConfigError::InvalidValue {
                    field: String::from_str("chord_lookup_max_ms"),
                    value: String::from_str("0"),
                },
            );
        }
        if self.ui_response_max_ms > 32 {
            return Err(
                ConfigError::OutOfRange {
                    field: String::from_str("ui_response_max_ms"),
                    min: String::from_str("1"),
                    max: String::from_str("32"),
                },
            );
        }
        Ok(())
    }
}

} // verus!
