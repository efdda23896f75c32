//! The engine: one pattern store, one scorer, and the state around them.
//!
//! The engine starts empty. It has to be initialized with training patterns
//! before it answers; it counts its requests and keeps a running average of
//! the time they took.

use vstd::prelude::*;
use crate::analysis::{
    MusicalAnalyzer, DifficultyAssessment, ProgressionAnalysis, answers_assessment, analysis_of,
    default_model, no_assessments,
};
use crate::chord::Chord;
use crate::config::memory;
use crate::error::{AiError, AiResult};
use crate::fixed::{Fixed, SCALE};
use crate::harmonize::{answers_bass, answers_degrees};
use crate::suggestions::{
    ChordProgressionSuggester, ChordSuggestion, SuggestionConfig, SuggestionContext,
    SuggestionModel, CacheKey, SCORE_BOUND, chord_models, averaged, no_entries, clock_now,
    clock_elapsed_ms, clock_elapsed_secs, answers_gap, answers_request,
};
use crate::trie::{
    ChordProgressionTrie, TrieModel, NodeModel, ReferenceModel, Reference, MAX_PATTERN_LENGTH,
    all_encodable, chord_keys, storing_refusal, chord_refusal, fixed_models, first_unencodable,
    too_long_reason, refused_chord,
};

verus! {

/// A model and the version of it that the engine uses.
#[derive(Debug, PartialEq, Eq)]
pub struct ModelVersion {
    pub name: String,
    pub version: String,
}

impl Clone for ModelVersion {
    fn clone(&self) -> (r: Self)
        ensures
            r.name@ == self.name@,
            r.version@ == self.version@,
    {
        ModelVersion { name: self.name.clone(), version: self.version.clone() }
    }
}

/// The configuration of the engine.
#[derive(Debug, PartialEq, Eq)]
pub struct AiEngineConfig {
    /// The most memory that the engine may use, in megabytes.
    pub max_memory_mb: u32,
    /// Whether request times are watched.
    pub enable_performance_monitoring: bool,
    /// The most answers that a cache may remember.
    pub max_cache_entries: usize,
    /// The versions of the models in use.
    pub model_versions: Vec<ModelVersion>,
    pub enable_advanced_suggestions: bool,
    pub enable_difficulty_assessment: bool,
    pub enable_bass_harmonization: bool,
    pub enable_pattern_analysis: bool,
}

/// A configuration as a value.
pub struct ConfigModel {
    pub max_memory_mb: u32,
    pub enable_performance_monitoring: bool,
    pub max_cache_entries: usize,
    /// Each model with its version.
    pub model_versions: Seq<(Seq<char>, Seq<char>)>,
    pub enable_advanced_suggestions: bool,
    pub enable_difficulty_assessment: bool,
    pub enable_bass_harmonization: bool,
    pub enable_pattern_analysis: bool,
}

/// The models of a list with their versions.
pub open spec fn version_texts(versions: Seq<ModelVersion>) -> Seq<(Seq<char>, Seq<char>)> {
    Seq::new(versions.len(), |i: int| (versions[i].name@, versions[i].version@))
}

impl View for AiEngineConfig {
    type V = ConfigModel;

    open spec fn view(&self) -> ConfigModel {
        ConfigModel {
            max_memory_mb: self.max_memory_mb,
            enable_performance_monitoring: self.enable_performance_monitoring,
            max_cache_entries: self.max_cache_entries,
            model_versions: version_texts(self.model_versions@),
            enable_advanced_suggestions: self.enable_advanced_suggestions,
            enable_difficulty_assessment: self.enable_difficulty_assessment,
            enable_bass_harmonization: self.enable_bass_harmonization,
            enable_pattern_analysis: self.enable_pattern_analysis,
        }
    }
}

/// The configuration that an engine starts with unless it is given
/// another: every feature on, 150 megabytes of memory, room for ten
/// thousand remembered answers, and the two models in their versions.
pub open spec fn default_config() -> ConfigModel {
    ConfigModel {
        max_memory_mb: 150,
        enable_performance_monitoring: true,
        max_cache_entries: 10000,
        model_versions: seq![
            ("chord_suggestion"@, "v2.35.2"@),
            ("difficulty_assessment"@, "v2.35.2"@),
        ],
        enable_advanced_suggestions: true,
        enable_difficulty_assessment: true,
        enable_bass_harmonization: true,
        enable_pattern_analysis: true,
    }
}

impl Clone for AiEngineConfig {
    fn clone(&self) -> (r: Self)
        ensures
            r@ == self@,
    {
        let mut versions: Vec<ModelVersion> = Vec::new();
        let mut i: usize = 0;
        while i < self.model_versions.len()
            invariant
                i <= self.model_versions@.len(),
                versions@.len() == i,
                forall|k: int|
                    0 <= k < i ==> (#[trigger] versions@[k]).name@ == self.model_versions@[k].name@
                        && versions@[k].version@ == self.model_versions@[k].version@,
            decreases self.model_versions@.len() - i,
        {
            versions.push(self.model_versions[i].clone());
            i = i + 1;
        }
        assert(version_texts(versions@) =~= version_texts(self.model_versions@));
        AiEngineConfig {
            max_memory_mb: self.max_memory_mb,
            enable_performance_monitoring: self.enable_performance_monitoring,
            max_cache_entries: self.max_cache_entries,
            model_versions: versions,
            enable_advanced_suggestions: self.enable_advanced_suggestions,
            enable_difficulty_assessment: self.enable_difficulty_assessment,
            enable_bass_harmonization: self.enable_bass_harmonization,
            enable_pattern_analysis: self.enable_pattern_analysis,
        }
    }
}

impl Default for AiEngineConfig {
    /// Every feature on, the memory limit of the configuration, and room for
    /// ten thousand remembered answers.
    fn default() -> (c: Self)
        ensures
            c@ == default_config(),
    {
        let mut versions: Vec<ModelVersion> = Vec::new();
        versions.push(
            ModelVersion {
                name: String::from_str("chord_suggestion"),
                version: String::from_str("v2.35.2"),
            },
        );
        versions.push(
            ModelVersion {
                name: String::from_str("difficulty_assessment"),
                version: String::from_str("v2.35.2"),
            },
        );
        assert(version_texts(versions@) =~= default_config().model_versions);
        AiEngineConfig {
            max_memory_mb: memory().memory_usage_max_mb,
            enable_performance_monitoring: true,
            max_cache_entries: 10000,
            model_versions: versions,
            enable_advanced_suggestions: true,
            enable_difficulty_assessment: true,
            enable_bass_harmonization: true,
            enable_pattern_analysis: true,
        }
    }
}

/// The figures of the engine.
#[derive(Debug, Clone, Copy, PartialEq, Eq)]
pub struct EngineMetrics {
    /// The requests answered.
    pub total_requests: u64,
    /// The running average of the request times, in milliseconds.
    pub avg_response_time_ms: Fixed,
    /// The estimated size of the pattern store, in bytes.
    pub memory_usage_bytes: u64,
    /// The remembered answers for each request answered.
    pub cache_hit_rate: Fixed,
    /// The patterns stored.
    pub total_patterns: u64,
    /// The seconds since the engine was made.
    pub uptime_seconds: u64,
}

/// How a bass line is laid out.
#[derive(Debug, Clone, Copy, PartialEq, Eq, Structural)]
pub enum BassStyle {
    /// Root notes only.
    Root,
    /// Root and fifth in turn.
    Alternating,
    /// Roots joined by passing tones.
    Walking,
    /// Root, third and fifth of each chord.
    Arpeggiated,
    /// Each root twice.
    Rhythmic,
}

impl Default for BassStyle {
    fn default() -> (s: Self)
        ensures
            s == BassStyle::Root,
    {
        BassStyle::Root
    }
}

/// A training pattern: the chords, the source, and the tonic of its key.
pub type TrainingPattern = (Vec<Chord>, String, Option<String>);

/// Whether a training pattern can be stored: it has from one to twenty
/// chords, each with a binary form.
pub open spec fn storable(p: TrainingPattern) -> bool {
    1 <= p.0@.len() <= MAX_PATTERN_LENGTH && all_encodable(p.0@)
}

/// The reference that a training pattern leaves at the nodes on its path.
pub open spec fn reference_of(p: TrainingPattern) -> ReferenceModel {
    (Reference { id: p.1, key_tonic: p.2 })@
}

/// The tree after the first `upto` training patterns have been stored.
pub open spec fn loaded(tree: NodeModel, patterns: Seq<TrainingPattern>, upto: nat) -> NodeModel
    decreases upto,
{
    if upto == 0 || upto > patterns.len() {
        tree
    } else {
        loaded(tree, patterns, (upto - 1) as nat).insert(
            chord_keys(patterns[upto - 1].0@),
            reference_of(patterns[upto - 1]),
        )
    }
}

/// The engine.
pub struct AiEngine {
    config: AiEngineConfig,
    trie: ChordProgressionTrie,
    suggester: ChordProgressionSuggester,
    analyzer: MusicalAnalyzer,
    metrics: EngineMetrics,
    start_time: std::time::Instant,
    initialized: bool,
}

/// The new average of the request times after a request of `ms`
/// milliseconds: the time itself for the first request, then nine tenths of
/// the old average and a tenth of the request.
pub open spec fn response_average(requests_before: u64, average: int, ms: u64) -> int {
    if requests_before == 0 {
        crate::scoring::least(ms * 1_000_000, SCORE_BOUND as int)
    } else {
        averaged(average, ms)
    }
}

impl AiEngine {
    /// The pattern store of the engine.
    pub closed spec fn store(&self) -> TrieModel {
        self.trie@
    }

    /// Whether the engine has been initialized.
    pub closed spec fn ready(&self) -> bool {
        self.initialized
    }

    /// The configuration in force.
    pub closed spec fn configuration(&self) -> AiEngineConfig {
        self.config
    }

    /// The answers that the scorer remembers.
    pub closed spec fn remembered(&self) -> Map<CacheKey, Seq<SuggestionModel>> {
        self.suggester.cache()
    }

    /// The assessments that the analyzer remembers.
    pub closed spec fn assessed(&self) -> Map<Seq<char>, DifficultyAssessment> {
        self.analyzer.remembered()
    }

    /// The requests answered so far.
    pub closed spec fn requests(&self) -> u64 {
        self.metrics.total_requests
    }

    /// What holds of an engine at all times: its store is well formed, and
    /// its averages are within the bound for scores.
    pub closed spec fn well_formed(&self) -> bool {
        &&& self.trie@.well_formed()
        &&& 0 <= self.suggester.average_ms() <= SCORE_BOUND
        &&& 0 <= self.metrics.avg_response_time_ms.micros <= SCORE_BOUND
        &&& self.suggester.threshold() == 300_000
        &&& self.analyzer.model() == default_model()
    }

    /// A new engine: nothing stored, nothing remembered, not initialized.
    pub fn new(config: AiEngineConfig) -> (e: Self)
        ensures
            e.well_formed(),
            !e.ready(),
            e.configuration() == config,
            e.store().tree == NodeModel::empty(false),
            e.store().total_patterns == 0,
            e.remembered() == no_entries(),
            e.assessed() == no_assessments(),
            e.requests() == 0,
    {
        AiEngine {
            config,
            trie: ChordProgressionTrie::new(),
            suggester: ChordProgressionSuggester::new(),
            analyzer: MusicalAnalyzer::new(),
            metrics: EngineMetrics {
                total_requests: 0,
                avg_response_time_ms: Fixed { micros: 0 },
                memory_usage_bytes: 0,
                cache_hit_rate: Fixed { micros: 0 },
                total_patterns: 0,
                uptime_seconds: 0,
            },
            start_time: clock_now(),
            initialized: false,
        }
    }

    /// Stores the training patterns one by one, computes every rank, and
    /// marks the engine as initialized. An engine that is initialized
    /// already refuses. The first pattern that cannot be stored stops the
    /// loading with its error, and so does a store that is full; the
    /// patterns before it stay stored, and the engine stays uninitialized.
    pub fn initialize(&mut self, training_patterns: Vec<TrainingPattern>) -> (r: AiResult<()>)
        requires
            old(self).well_formed(),
        ensures
            final(self).well_formed(),
            final(self).configuration() == old(self).configuration(),
            final(self).remembered() == old(self).remembered(),
            final(self).assessed() == old(self).assessed(),
            final(self).requests() == old(self).requests(),
            old(self).ready() ==> (r == Err::<(), AiError>(AiError::EngineNotInitialized)
                && final(self).store() == old(self).store() && final(self).ready()),
            !old(self).ready() ==> match r {
                Ok(()) => {
                    &&& final(self).ready()
                    &&& forall|i: int|
                        0 <= i < training_patterns@.len() ==> storable(
                            #[trigger] training_patterns@[i],
                        )
                    &&& final(self).store().tree == loaded(
                        old(self).store().tree,
                        training_patterns@,
                        training_patterns@.len(),
                    ).ranked()
                    &&& final(self).store().total_patterns == old(self).store().total_patterns
                        + training_patterns@.len()
                },
                Err(e) => {
                    &&& !final(self).ready()
                    &&& exists|k: int|
                        {
                            &&& 0 <= k < training_patterns@.len()
                            &&& forall|i: int|
                                0 <= i < k ==> storable(#[trigger] training_patterns@[i])
                            &&& final(self).store().tree == loaded(
                                old(self).store().tree,
                                training_patterns@,
                                k as nat,
                            )
                            &&& final(self).store().total_patterns == old(self).store().total_patterns + k
                            &&& if storable(#[trigger] training_patterns@[k]) {
                                e is MemoryExhausted && final(self).store().total_patterns
                                    == u32::MAX
                            } else {
                                e matches AiError::InvalidPattern { reason } && reason@
                                    == storing_refusal(training_patterns@[k].0@)
                            }
                        }
                },
            },
    {
        if self.initialized {
            return Err(AiError::EngineNotInitialized);
        }
        let ghost start = self.trie@;
        let n = training_patterns.len();
        let mut i: usize = 0;
        while i < n
            invariant
                i <= n,
                n == training_patterns@.len(),
                start == old(self).store(),
                self.well_formed(),
                !self.initialized,
                !old(self).initialized,
                self.config == old(self).config,
                self.suggester == old(self).suggester,
                self.analyzer == old(self).analyzer,
                self.metrics == old(self).metrics,
                forall|k: int| 0 <= k < i ==> storable(#[trigger] training_patterns@[k]),
                self.trie@.tree == loaded(start.tree, training_patterns@, i as nat),
                self.trie@.total_patterns == start.total_patterns + i,
                self.trie@.branches == start.branches,
            decreases n - i,
        {
            if self.trie.root_count() == u32::MAX {
                let probe = &training_patterns[i];
                let full = AiError::MemoryExhausted { limit_mb: self.config.max_memory_mb };
                match Self::check_pattern(probe.0.as_slice()) {
                    Ok(()) => {
                        return Err(full);
                    },
                    Err(e) => {
                        return Err(e);
                    },
                }
            }
            let p = &training_patterns[i];
            let tonic = match &p.2 {
                Some(t) => Some(t.clone()),
                None => None,
            };
            match self.trie.add_pattern(p.0.as_slice(), p.1.clone(), tonic) {
                Ok(()) => {},
                Err(e) => {
                    return Err(e);
                },
            }
            assert(self.trie@.tree == loaded(start.tree, training_patterns@, (i + 1) as nat));
            i = i + 1;
        }
        self.trie.calculate_all_ranks();
        self.initialized = true;
        Ok(())
    }

    /// Whether a pattern can be stored; where it cannot, the reason with
    /// which the store refuses it.
    fn check_pattern(pattern: &[Chord]) -> (r: AiResult<()>)
        ensures
            r is Ok <==> 1 <= pattern@.len() <= MAX_PATTERN_LENGTH && all_encodable(pattern@),
            r matches Err(e) ==> e matches AiError::InvalidPattern { reason } && reason@
                == storing_refusal(pattern@),
    {
        if pattern.len() == 0 {
            return Err(
                AiError::InvalidPattern { reason: String::from_str("Pattern cannot be empty") },
            );
        }
        if pattern.len() > MAX_PATTERN_LENGTH {
            return Err(AiError::InvalidPattern { reason: too_long_reason(pattern.len()) });
        }
        let ghost models = fixed_models(pattern@);
        let mut i: usize = 0;
        while i < pattern.len()
            invariant
                i <= pattern@.len(),
                1 <= pattern@.len() <= MAX_PATTERN_LENGTH,
                models == fixed_models(pattern@),
                first_unencodable(models, 0) == first_unencodable(models, i as int),
                forall|k: int| 0 <= k < i ==> crate::chord_binary::encodable(#[trigger] pattern@[k]@),
            decreases pattern@.len() - i,
        {
            assert(models[i as int] == Some(pattern@[i as int]@));
            match crate::chord_binary::serialize_chord(&pattern[i]) {
                Ok(_) => {},
                Err(e) => {
                    let reason = refused_chord(e);
                    assert(reason@ =~= chord_refusal(models));
                    return Err(AiError::InvalidPattern { reason });
                },
            }
            i = i + 1;
        }
        Ok(())
    }

    /// Whether the engine has been initialized.
    pub fn is_initialized(&self) -> (b: bool)
        ensures
            b == self.ready(),
    {
        self.initialized
    }
}

/// The remembered answers for each request answered, in millionths, as far
/// as the bound for scores goes.
pub open spec fn hit_rate(entries: int, requests: u64) -> int {
    crate::scoring::least((entries * SCALE) / (requests as int), SCORE_BOUND as int)
}

/// One more than `n`, as far as 64 bits hold it.
pub open spec fn one_more(n: u64) -> u64 {
    if n == u64::MAX {
        n
    } else {
        (n + 1) as u64
    }
}

impl AiEngine {
    /// The figures of the engine as last updated.
    pub closed spec fn figures(&self) -> EngineMetrics {
        self.metrics
    }

    /// Takes a request that was answered in `response_time_ms` milliseconds
    /// into the figures: one more request, the new average of the request
    /// times, and the remembered answers for each request.
    pub fn update_metrics_for_request(&mut self, response_time_ms: u64)
        requires
            old(self).well_formed(),
        ensures
            final(self).well_formed(),
            final(self).store() == old(self).store(),
            final(self).ready() == old(self).ready(),
            final(self).configuration() == old(self).configuration(),
            final(self).remembered() == old(self).remembered(),
            final(self).assessed() == old(self).assessed(),
            final(self).requests() == one_more(old(self).requests()),
            final(self).figures().avg_response_time_ms.value() == response_average(
                old(self).requests(),
                old(self).figures().avg_response_time_ms.value(),
                response_time_ms,
            ),
            final(self).figures().cache_hit_rate.value() == hit_rate(
                (old(self).remembered().dom().len() + old(self).assessed().dom().len()) as int,
                final(self).requests(),
            ),
    {
        let before = self.metrics.total_requests;
        if before < u64::MAX {
            self.metrics.total_requests = before + 1;
        }
        if before == 0 {
            self.metrics.avg_response_time_ms = Fixed {
                micros: if response_time_ms > 9_000_000_000 {
                    9_000_000_000_000_000
                } else {
                    (response_time_ms * 1_000_000) as i64
                },
            };
        } else {
            let kept = crate::fixed::scale_by(self.metrics.avg_response_time_ms.micros, 900_000);
            let added: i128 = if response_time_ms > 90_000_000_000 {
                9_000_000_000_000_000
            } else {
                (response_time_ms as i128) * 100_000
            };
            let total: i128 = kept as i128 + added;
            self.metrics.avg_response_time_ms = Fixed {
                micros: if total > 9_000_000_000_000_000 {
                    9_000_000_000_000_000
                } else {
                    total as i64
                },
            };
        }
        let (answers, _) = self.suggester.cache_stats();
        let (assessments, _) = self.analyzer.cache_stats();
        let entries: u128 = answers as u128 + assessments as u128;
        let requests = self.metrics.total_requests;
        let scaled: u128 = entries * 1_000_000;
        let rate: u128 = scaled / (requests as u128);
        self.metrics.cache_hit_rate = Fixed {
            micros: if rate > 9_000_000_000_000_000 {
                9_000_000_000_000_000
            } else {
                rate as i64
            },
        };
        assert(self.metrics.cache_hit_rate.value() == hit_rate(entries as int, requests));
        assert(requests == self.requests());
    }

    /// Suggestions for the next chord after a pattern. An engine that is not
    /// initialized refuses, and so does one whose advanced suggestions are
    /// switched off. A request that is answered counts in the figures.
    pub fn get_chord_suggestions(
        &mut self,
        pattern: &[Chord],
        context: &SuggestionContext,
        config: &SuggestionConfig,
    ) -> (r: AiResult<Vec<ChordSuggestion>>)
        requires
            old(self).well_formed(),
            context.genre_weights@.len() <= u32::MAX,
        ensures
            final(self).well_formed(),
            final(self).store() == old(self).store(),
            final(self).ready() == old(self).ready(),
            final(self).configuration() == old(self).configuration(),
            !old(self).ready() ==> (r == Err::<Vec<ChordSuggestion>, AiError>(
                AiError::EngineNotInitialized,
            ) && final(self).remembered() == old(self).remembered()),
            old(self).ready() && !old(self).configuration().enable_advanced_suggestions ==> (
            r matches Err(e) && e is SuggestionFailed && final(self).remembered() == old(self).remembered()),
            old(self).ready() && old(self).configuration().enable_advanced_suggestions
                ==> answers_request(
                old(self).remembered(),
                final(self).remembered(),
                r,
                old(self).store().tree,
                chord_models(pattern@),
                context@,
                *config,
            ),
            final(self).requests() == (if r is Ok {
                one_more(old(self).requests())
            } else {
                old(self).requests()
            }),
    {
        if !self.initialized {
            return Err(AiError::EngineNotInitialized);
        }
        if !self.config.enable_advanced_suggestions {
            return Err(
                AiError::SuggestionFailed {
                    reason: String::from_str("Advanced suggestions are disabled"),
                },
            );
        }
        let started = clock_now();
        let suggestions = match self.suggester.get_chord_suggestions(
            &self.trie,
            pattern,
            context,
            config,
        ) {
            Ok(v) => v,
            Err(e) => {
                return Err(e);
            },
        };
        self.update_metrics_for_request(clock_elapsed_ms(&started));
        Ok(suggestions)
    }

    /// Suggestions for a gap between the chords before it and the chords
    /// behind it. An engine that is not initialized refuses, and so does one
    /// whose advanced suggestions are switched off. A request that is
    /// answered counts in the figures.
    pub fn get_magic_chord_solutions(
        &mut self,
        previous_chords: &[Chord],
        following_chords: &[Chord],
        scale: &str,
        limit: usize,
    ) -> (r: AiResult<Vec<ChordSuggestion>>)
        requires
            old(self).well_formed(),
        ensures
            final(self).well_formed(),
            final(self).store() == old(self).store(),
            final(self).ready() == old(self).ready(),
            final(self).configuration() == old(self).configuration(),
            final(self).remembered() == old(self).remembered(),
            final(self).assessed() == old(self).assessed(),
            !old(self).ready() ==> r == Err::<Vec<ChordSuggestion>, AiError>(
                AiError::EngineNotInitialized,
            ),
            old(self).ready() && !old(self).configuration().enable_advanced_suggestions ==> (
            r matches Err(e) && e is SuggestionFailed),
            old(self).ready() && old(self).configuration().enable_advanced_suggestions
                ==> answers_gap(
                r,
                old(self).store().tree,
                chord_models(previous_chords@),
                chord_models(following_chords@),
                limit,
                300_000,
                true,
            ),
            final(self).requests() == (if r is Ok {
                one_more(old(self).requests())
            } else {
                old(self).requests()
            }),
    {
        if !self.initialized {
            return Err(AiError::EngineNotInitialized);
        }
        if !self.config.enable_advanced_suggestions {
            return Err(
                AiError::SuggestionFailed {
                    reason: String::from_str("Advanced suggestions are disabled"),
                },
            );
        }
        let started = clock_now();
        let suggestions = match self.suggester.get_magic_chord_solutions(
            &self.trie,
            previous_chords,
            following_chords,
            scale,
            limit,
        ) {
            Ok(v) => v,
            Err(e) => {
                return Err(e);
            },
        };
        self.update_metrics_for_request(clock_elapsed_ms(&started));
        Ok(suggestions)
    }

    /// Stores one more pattern and computes every rank anew. A pattern that
    /// cannot be stored is refused as an invalid pattern, and a full store
    /// refuses every pattern as exhausted memory; the store is then as it was.
    pub fn add_training_pattern(
        &mut self,
        pattern: &[Chord],
        source_id: String,
        key_tonic: Option<String>,
    ) -> (r: AiResult<()>)
        requires
            old(self).well_formed(),
        ensures
            final(self).well_formed(),
            final(self).ready() == old(self).ready(),
            final(self).configuration() == old(self).configuration(),
            final(self).remembered() == old(self).remembered(),
            final(self).assessed() == old(self).assessed(),
            final(self).requests() == old(self).requests(),
            r is Ok <==> 1 <= pattern@.len() <= MAX_PATTERN_LENGTH && all_encodable(pattern@)
                && old(self).store().total_patterns < u32::MAX,
            r is Ok ==> final(self).store().tree == old(self).store().tree.insert(
                chord_keys(pattern@),
                (Reference { id: source_id, key_tonic })@,
            ).ranked() && final(self).store().total_patterns == old(self).store().total_patterns
                + 1,
            r matches Err(e) ==> final(self).store() == old(self).store() && (if 1
                <= pattern@.len() <= MAX_PATTERN_LENGTH && all_encodable(pattern@) {
                e is MemoryExhausted
            } else {
                e matches AiError::InvalidPattern { reason } && reason@ == storing_refusal(
                    pattern@,
                )
            }),
    {
        if self.trie.root_count() == u32::MAX {
            let full = AiError::MemoryExhausted { limit_mb: self.config.max_memory_mb };
            return match Self::check_pattern(pattern) {
                Ok(()) => Err(full),
                Err(e) => Err(e),
            };
        }
        match self.trie.add_pattern(pattern, source_id, key_tonic) {
            Ok(()) => {},
            Err(e) => {
                return Err(e);
            },
        }
        self.trie.calculate_all_ranks();
        Ok(())
    }

    /// The figures of the engine, with the time since it was made, the
    /// estimated size of the store and the number of patterns as they are now.
    pub fn get_metrics(&self) -> (m: EngineMetrics)
        ensures
            m.total_requests == self.requests(),
            m.avg_response_time_ms == self.figures().avg_response_time_ms,
            m.cache_hit_rate == self.figures().cache_hit_rate,
            m.memory_usage_bytes == crate::trie::capped(self.store().bytes()),
            m.total_patterns == self.store().total_patterns,
    {
        EngineMetrics {
            total_requests: self.metrics.total_requests,
            avg_response_time_ms: self.metrics.avg_response_time_ms,
            memory_usage_bytes: self.trie.memory_usage(),
            cache_hit_rate: self.metrics.cache_hit_rate,
            total_patterns: self.trie.total_patterns(),
            uptime_seconds: clock_elapsed_secs(&self.start_time),
        }
    }

    /// Puts another configuration in force, unless it allows more than a
    /// thousand megabytes of memory.
    pub fn update_config(&mut self, new_config: AiEngineConfig) -> (r: AiResult<()>)
        requires
            old(self).well_formed(),
        ensures
            final(self).well_formed(),
            final(self).store() == old(self).store(),
            final(self).ready() == old(self).ready(),
            final(self).remembered() == old(self).remembered(),
            final(self).assessed() == old(self).assessed(),
            final(self).requests() == old(self).requests(),
            r is Ok <==> new_config.max_memory_mb <= 1000,
            r is Ok ==> final(self).configuration() == new_config,
            r matches Err(e) ==> e == (AiError::MemoryExhausted {
                limit_mb: new_config.max_memory_mb,
            }) && final(self).configuration() == old(self).configuration(),
    {
        if new_config.max_memory_mb > 1000 {
            return Err(AiError::MemoryExhausted { limit_mb: new_config.max_memory_mb });
        }
        self.config = new_config;
        Ok(())
    }

    /// A copy of the configuration in force.
    pub fn get_config(&self) -> (c: AiEngineConfig)
        ensures
            c@ == self.configuration()@,
    {
        self.config.clone()
    }

    /// Forgets every remembered answer.
    pub fn clear_caches(&mut self)
        requires
            old(self).well_formed(),
        ensures
            final(self).well_formed(),
            final(self).remembered() == no_entries(),
            final(self).assessed() == no_assessments(),
            final(self).store() == old(self).store(),
            final(self).ready() == old(self).ready(),
            final(self).configuration() == old(self).configuration(),
            final(self).requests() == old(self).requests(),
    {
        self.suggester.clear_cache();
        self.analyzer.clear_cache();
    }

    /// Checks the estimated size of the store against the memory limit of
    /// the configuration: whole megabytes above the limit are refused.
    pub fn validate_memory_usage(&self) -> (r: AiResult<()>)
        ensures
            r is Ok <==> crate::trie::capped(self.store().bytes()) / 1_048_576
                <= self.configuration().max_memory_mb,
            r matches Err(e) ==> e == (AiError::MemoryExhausted {
                limit_mb: self.configuration().max_memory_mb,
            }),
    {
        let used_mb = self.trie.memory_usage() / (1024 * 1024);
        let limit_mb = self.config.max_memory_mb;
        if used_mb > limit_mb as u64 {
            return Err(AiError::MemoryExhausted { limit_mb });
        }
        Ok(())
    }

    /// Forgets every remembered answer and marks the engine as not
    /// initialized. The stored patterns stay.
    pub fn shutdown(&mut self) -> (r: AiResult<()>)
        requires
            old(self).well_formed(),
        ensures
            r is Ok,
            final(self).well_formed(),
            !final(self).ready(),
            final(self).remembered() == no_entries(),
            final(self).assessed() == no_assessments(),
            final(self).store() == old(self).store(),
            final(self).configuration() == old(self).configuration(),
            final(self).requests() == old(self).requests(),
    {
        self.suggester.clear_cache();
        self.analyzer.clear_cache();
        self.initialized = false;
        Ok(())
    }
}

/// How a bass line is wanted.
#[derive(Debug, Clone, PartialEq, Eq)]
pub struct BassHarmonizationOptions {
    /// How the line is laid out.
    pub style: BassStyle,
    /// How complex the line may be, from 0 to 1.
    pub complexity: Fixed,
    /// Whether passing tones are wanted.
    pub enable_walking: bool,
    /// A rhythm to follow.
    pub rhythm_pattern: Option<String>,
}

impl Default for BassHarmonizationOptions {
    fn default() -> (o: Self)
        ensures
            o.style == BassStyle::Root,
            o.complexity.micros == 500_000,
            !o.enable_walking,
            o.rhythm_pattern is None,
    {
        BassHarmonizationOptions {
            style: BassStyle::Root,
            complexity: Fixed { micros: 500_000 },
            enable_walking: false,
            rhythm_pattern: None,
        }
    }
}

/// A bass line: its notes, the length of each in ticks, and how far it can
/// be trusted.
#[derive(Debug, Clone, PartialEq, Eq)]
pub struct BassHarmonization {
    pub bass_notes: Vec<u8>,
    pub rhythm: Vec<u32>,
    pub confidence: Fixed,
    pub style: BassStyle,
}

/// The roots of a list of chords.
pub open spec fn roots_of(chords: Seq<Chord>) -> Seq<u8> {
    Seq::new(chords.len(), |i: int| chords[i].root)
}

/// The degree that stands `above` steps over a root: the sum, and seven
/// less where it is above the seventh degree.
pub open spec fn degree_over(root: u8, above: int) -> u8 {
    if root + above > 7 {
        (root + above - 7) as u8
    } else {
        (root + above) as u8
    }
}

/// The tone between two roots of a walking line: two steps above the first
/// root where the roots lie three or more apart, else one step, within twelve.
pub open spec fn passing_tone(from: u8, to: u8) -> u8 {
    if to - from >= 3 || from - to >= 3 {
        ((from + 2) % 12) as u8
    } else {
        ((from + 1) % 12) as u8
    }
}

/// The notes that a style gives for the chord at `i`.
pub open spec fn notes_at(roots: Seq<u8>, style: BassStyle, i: int) -> Seq<u8> {
    match style {
        BassStyle::Root => seq![roots[i]],
        BassStyle::Alternating => if i % 2 == 0 {
            seq![roots[i]]
        } else {
            seq![degree_over(roots[i], 4)]
        },
        BassStyle::Walking => if i + 1 < roots.len() {
            seq![roots[i], passing_tone(roots[i], roots[i + 1])]
        } else {
            seq![roots[i]]
        },
        BassStyle::Arpeggiated => seq![
            roots[i],
            degree_over(roots[i], 2),
            degree_over(roots[i], 4),
        ],
        BassStyle::Rhythmic => seq![roots[i], roots[i]],
    }
}

/// The lengths in ticks of the notes that a style gives for the chord at `i`.
pub open spec fn rhythm_at(roots: Seq<u8>, style: BassStyle, i: int) -> Seq<u32> {
    match style {
        BassStyle::Root => seq![24u32],
        BassStyle::Alternating => seq![12u32],
        BassStyle::Walking => if i + 1 < roots.len() {
            seq![6u32, 6u32]
        } else {
            seq![6u32]
        },
        BassStyle::Arpeggiated => seq![8u32, 8u32, 8u32],
        BassStyle::Rhythmic => seq![12u32, 6u32],
    }
}

/// The notes of the bass line under the first `upto` chords.
pub open spec fn line_notes(roots: Seq<u8>, style: BassStyle, upto: int) -> Seq<u8>
    decreases upto,
{
    if upto <= 0 || upto > roots.len() {
        Seq::empty()
    } else {
        line_notes(roots, style, upto - 1) + notes_at(roots, style, upto - 1)
    }
}

/// The lengths of the notes of the bass line under the first `upto` chords.
pub open spec fn line_rhythm(roots: Seq<u8>, style: BassStyle, upto: int) -> Seq<u32>
    decreases upto,
{
    if upto <= 0 || upto > roots.len() {
        Seq::empty()
    } else {
        line_rhythm(roots, style, upto - 1) + rhythm_at(roots, style, upto - 1)
    }
}

/// How far a bass line can be trusted: a plainer style more, and a line
/// under up to four chords a little more; never above 1.
pub open spec fn line_confidence(style: BassStyle, chords: nat) -> int {
    crate::scoring::least(
        (match style {
            BassStyle::Root => 900_000int,
            BassStyle::Alternating => 800_000,
            BassStyle::Walking => 600_000,
            BassStyle::Arpeggiated => 700_000,
            BassStyle::Rhythmic => 750_000,
        }) + (if chords <= 4 {
            100_000int
        } else {
            0
        }),
        1_000_000,
    )
}

/// The degree that stands `above` steps over a root.
fn degree_above(root: u8, above: u8) -> (d: u8)
    requires
        above <= 6,
    ensures
        d == degree_over(root, above as int),
{
    let sum: u16 = root as u16 + above as u16;
    if sum > 7 {
        (sum - 7) as u8
    } else {
        sum as u8
    }
}

/// The tone between two roots of a walking line.
fn calculate_passing_tone(from_root: u8, to_root: u8) -> (tone: u8)
    ensures
        tone == passing_tone(from_root, to_root),
{
    let from = from_root as u16;
    let to = to_root as u16;
    if to >= from + 3 || from >= to + 3 {
        ((from + 2) % 12) as u8
    } else {
        ((from + 1) % 12) as u8
    }
}

/// The bass line under a progression, in the style that the options name.
pub fn generate_bass_harmonization(progression: &[Chord], options: &BassHarmonizationOptions) -> (h:
    BassHarmonization)
    ensures
        h.bass_notes@ == line_notes(roots_of(progression@), options.style, progression@.len() as int),
        h.rhythm@ == line_rhythm(roots_of(progression@), options.style, progression@.len() as int),
        h.confidence.micros == line_confidence(options.style, progression@.len()),
        h.style == options.style,
{
    let ghost roots = roots_of(progression@);
    let style = options.style;
    let n = progression.len();
    let mut bass_notes: Vec<u8> = Vec::new();
    let mut rhythm: Vec<u32> = Vec::new();
    let mut i: usize = 0;
    while i < n
        invariant
            i <= n,
            n == progression@.len(),
            roots == roots_of(progression@),
            bass_notes@ == line_notes(roots, style, i as int),
            rhythm@ == line_rhythm(roots, style, i as int),
        decreases n - i,
    {
        let root = progression[i].root;
        assert(roots[i as int] == root);
        let ghost notes_before = bass_notes@;
        let ghost rhythm_before = rhythm@;
        match style {
            BassStyle::Root => {
                bass_notes.push(root);
                rhythm.push(24);
            },
            BassStyle::Alternating => {
                if i % 2 == 0 {
                    bass_notes.push(root);
                } else {
                    bass_notes.push(degree_above(root, 4));
                }
                rhythm.push(12);
            },
            BassStyle::Walking => {
                bass_notes.push(root);
                rhythm.push(6);
                if i + 1 < n {
                    assert(roots[i + 1] == progression@[i + 1].root);
                    bass_notes.push(calculate_passing_tone(root, progression[i + 1].root));
                    rhythm.push(6);
                }
            },
            BassStyle::Arpeggiated => {
                bass_notes.push(root);
                bass_notes.push(degree_above(root, 2));
                bass_notes.push(degree_above(root, 4));
                rhythm.push(8);
                rhythm.push(8);
                rhythm.push(8);
            },
            BassStyle::Rhythmic => {
                bass_notes.push(root);
                bass_notes.push(root);
                rhythm.push(12);
                rhythm.push(6);
            },
        }
        assert(bass_notes@ =~= notes_before + notes_at(roots, style, i as int));
        assert(rhythm@ =~= rhythm_before + rhythm_at(roots, style, i as int));
        i = i + 1;
    }
    let base: i64 = match style {
        BassStyle::Root => 900_000,
        BassStyle::Alternating => 800_000,
        BassStyle::Walking => 600_000,
        BassStyle::Arpeggiated => 700_000,
        BassStyle::Rhythmic => 750_000,
    };
    let more: i64 = if n <= 4 {
        100_000
    } else {
        0
    };
    let confidence: i64 = if base + more > 1_000_000 {
        1_000_000
    } else {
        base + more
    };
    BassHarmonization { bass_notes, rhythm, confidence: Fixed { micros: confidence }, style }
}

impl AiEngine {
    /// The best `limit` chords over a bass note. An engine that is not
    /// initialized refuses, and so does one whose bass harmonization is
    /// switched off. A request that is answered counts in the figures.
    pub fn get_magic_bass_solutions(&mut self, bass_note: &str, scale: &str, limit: usize) -> (r:
        AiResult<Vec<ChordSuggestion>>)
        requires
            old(self).well_formed(),
        ensures
            final(self).well_formed(),
            final(self).store() == old(self).store(),
            final(self).ready() == old(self).ready(),
            final(self).configuration() == old(self).configuration(),
            final(self).remembered() == old(self).remembered(),
            final(self).assessed() == old(self).assessed(),
            !old(self).ready() ==> r == Err::<Vec<ChordSuggestion>, AiError>(
                AiError::EngineNotInitialized,
            ),
            old(self).ready() && !old(self).configuration().enable_bass_harmonization ==> (
            r matches Err(e) && e is SuggestionFailed),
            old(self).ready() && old(self).configuration().enable_bass_harmonization
                ==> answers_bass(r, bass_note@, limit),
            final(self).requests() == (if r is Ok {
                one_more(old(self).requests())
            } else {
                old(self).requests()
            }),
    {
        if !self.initialized {
            return Err(AiError::EngineNotInitialized);
        }
        if !self.config.enable_bass_harmonization {
            return Err(
                AiError::SuggestionFailed {
                    reason: String::from_str("Bass harmonization is disabled"),
                },
            );
        }
        let started = clock_now();
        let suggestions = match self.suggester.get_magic_bass_solutions(bass_note, scale, limit) {
            Ok(v) => v,
            Err(e) => {
                return Err(e);
            },
        };
        self.update_metrics_for_request(clock_elapsed_ms(&started));
        Ok(suggestions)
    }

    /// The best `limit` chords for a mask of scale degrees. An engine that
    /// is not initialized refuses, and so does one whose advanced
    /// suggestions are switched off. A request that is answered counts in
    /// the figures.
    pub fn get_harmonize_by_sd_solutions(
        &mut self,
        scale_degree_bits: u32,
        scale: &str,
        limit: usize,
    ) -> (r: AiResult<Vec<ChordSuggestion>>)
        requires
            old(self).well_formed(),
        ensures
            final(self).well_formed(),
            final(self).store() == old(self).store(),
            final(self).ready() == old(self).ready(),
            final(self).configuration() == old(self).configuration(),
            final(self).remembered() == old(self).remembered(),
            final(self).assessed() == old(self).assessed(),
            !old(self).ready() ==> r == Err::<Vec<ChordSuggestion>, AiError>(
                AiError::EngineNotInitialized,
            ),
            old(self).ready() && !old(self).configuration().enable_advanced_suggestions ==> (
            r matches Err(e) && e is SuggestionFailed),
            old(self).ready() && old(self).configuration().enable_advanced_suggestions
                ==> answers_degrees(r, scale_degree_bits, limit),
            final(self).requests() == (if r is Ok {
                one_more(old(self).requests())
            } else {
                old(self).requests()
            }),
    {
        if !self.initialized {
            return Err(AiError::EngineNotInitialized);
        }
        if !self.config.enable_advanced_suggestions {
            return Err(
                AiError::SuggestionFailed {
                    reason: String::from_str("Advanced suggestions are disabled"),
                },
            );
        }
        let started = clock_now();
        let suggestions = match self.suggester.get_harmonize_by_sd_solutions(
            scale_degree_bits,
            scale,
            limit,
        ) {
            Ok(v) => v,
            Err(e) => {
                return Err(e);
            },
        };
        self.update_metrics_for_request(clock_elapsed_ms(&started));
        Ok(suggestions)
    }

    /// The bass line under a progression. An engine that is not initialized
    /// refuses, and so does one whose bass harmonization is switched off. A
    /// request that is answered counts in the figures.
    pub fn harmonize_bass_line(
        &mut self,
        progression: &[Chord],
        options: &BassHarmonizationOptions,
    ) -> (r: AiResult<BassHarmonization>)
        requires
            old(self).well_formed(),
        ensures
            final(self).well_formed(),
            final(self).store() == old(self).store(),
            final(self).ready() == old(self).ready(),
            final(self).configuration() == old(self).configuration(),
            final(self).remembered() == old(self).remembered(),
            final(self).assessed() == old(self).assessed(),
            !old(self).ready() ==> r == Err::<BassHarmonization, AiError>(
                AiError::EngineNotInitialized,
            ),
            old(self).ready() && !old(self).configuration().enable_bass_harmonization ==> (
            r matches Err(e) && e is SuggestionFailed),
            old(self).ready() && old(self).configuration().enable_bass_harmonization ==> (
            r matches Ok(h) && h.bass_notes@ == line_notes(
                roots_of(progression@),
                options.style,
                progression@.len() as int,
            ) && h.rhythm@ == line_rhythm(
                roots_of(progression@),
                options.style,
                progression@.len() as int,
            ) && h.confidence.micros == line_confidence(options.style, progression@.len())
                && h.style == options.style),
            final(self).requests() == (if r is Ok {
                one_more(old(self).requests())
            } else {
                old(self).requests()
            }),
    {
        if !self.initialized {
            return Err(AiError::EngineNotInitialized);
        }
        if !self.config.enable_bass_harmonization {
            return Err(
                AiError::SuggestionFailed {
                    reason: String::from_str("Bass harmonization is disabled"),
                },
            );
        }
        let started = clock_now();
        let harmonization = generate_bass_harmonization(progression, options);
        self.update_metrics_for_request(clock_elapsed_ms(&started));
        Ok(harmonization)
    }
}

impl AiEngine {
    /// How hard a progression is. An engine that is not initialized
    /// refuses, and so does one whose difficulty assessment is switched off.
    /// A request that is answered counts in the figures.
    pub fn assess_difficulty(
        &mut self,
        progression: &[Chord],
        tempo_bpm: Option<Fixed>,
        time_signature: Option<(u8, u8)>,
    ) -> (r: AiResult<DifficultyAssessment>)
        requires
            old(self).well_formed(),
        ensures
            final(self).well_formed(),
            final(self).store() == old(self).store(),
            final(self).ready() == old(self).ready(),
            final(self).configuration() == old(self).configuration(),
            final(self).remembered() == old(self).remembered(),
            !old(self).ready() ==> (r == Err::<DifficultyAssessment, AiError>(
                AiError::EngineNotInitialized,
            ) && final(self).assessed() == old(self).assessed()),
            old(self).ready() && !old(self).configuration().enable_difficulty_assessment ==> (
            r matches Err(e) && e is AnalysisFailed && final(self).assessed() == old(
                self,
            ).assessed()),
            old(self).ready() && old(self).configuration().enable_difficulty_assessment
                ==> answers_assessment(
                r,
                old(self).assessed(),
                final(self).assessed(),
                default_model(),
                old(self).store().tree,
                chord_models(progression@),
                tempo_bpm,
                time_signature,
            ),
            final(self).requests() == (if r is Ok {
                one_more(old(self).requests())
            } else {
                old(self).requests()
            }),
    {
        if !self.initialized {
            return Err(AiError::EngineNotInitialized);
        }
        if !self.config.enable_difficulty_assessment {
            return Err(
                AiError::AnalysisFailed {
                    reason: String::from_str("Difficulty assessment is disabled"),
                },
            );
        }
        let started = clock_now();
        let assessment = match self.analyzer.assess_difficulty(
            &self.trie,
            progression,
            tempo_bpm,
            time_signature,
        ) {
            Ok(assessment) => assessment,
            Err(e) => {
                return Err(e);
            },
        };
        self.update_metrics_for_request(clock_elapsed_ms(&started));
        Ok(assessment)
    }

    /// What stands out in a progression. An engine that is not initialized
    /// refuses, and so does one whose pattern analysis is switched off. A
    /// request that is answered counts in the figures.
    pub fn analyze_progression(&mut self, progression: &[Chord]) -> (r: AiResult<ProgressionAnalysis>)
        requires
            old(self).well_formed(),
        ensures
            final(self).well_formed(),
            final(self).store() == old(self).store(),
            final(self).ready() == old(self).ready(),
            final(self).configuration() == old(self).configuration(),
            final(self).remembered() == old(self).remembered(),
            final(self).assessed() == old(self).assessed(),
            !old(self).ready() ==> (r matches Err(e) && e is EngineNotInitialized),
            old(self).ready() && !old(self).configuration().enable_pattern_analysis ==> (
            r matches Err(e) && e is AnalysisFailed),
            old(self).ready() && old(self).configuration().enable_pattern_analysis ==> (if progression@.len()
                == 0 {
                r matches Err(e) && e is AnalysisFailed
            } else {
                r matches Ok(analysis) && analysis@ == analysis_of(chord_models(progression@))
            }),
            final(self).requests() == (if r is Ok {
                one_more(old(self).requests())
            } else {
                old(self).requests()
            }),
    {
        if !self.initialized {
            return Err(AiError::EngineNotInitialized);
        }
        if !self.config.enable_pattern_analysis {
            return Err(
                AiError::AnalysisFailed { reason: String::from_str("Pattern analysis is disabled") },
            );
        }
        let started = clock_now();
        let analysis = match self.analyzer.analyze_progression(progression) {
            Ok(analysis) => analysis,
            Err(e) => {
                return Err(e);
            },
        };
        self.update_metrics_for_request(clock_elapsed_ms(&started));
        Ok(analysis)
    }
}

} // verus!
