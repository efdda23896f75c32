//! The scorer: from the matches of a search to ranked suggestions.
//!
//! Two ways lead from a pattern to suggestions. The context window way
//! weighs each candidate for a gap by the context around the gap. The
//! contextual way scores each candidate for the next chord by frequency,
//! context and theory. Either way the candidates are the matches of a
//! wildcard search; a match whose key spells no chord is passed over.

use vstd::prelude::*;
use dashmap::DashMap;
use smallvec::SmallVec;
use crate::chord::{Chord, ChordModel};
use crate::chord_binary::{deserialize_chord, decodable, decoded, encodable, encoded};
use crate::config::{performance, processing, quality};
use crate::error::{AiError, AiResult};
use crate::fixed::{
    Fixed, SCALE, scaled_mul, scaled_ratio, clamp_to, scale_by, capped_times, floor_div,
};
use crate::ranking::{
    Scored, insertion_point, sorted_desc, top, bounded_insert, collected, lemma_collected,
};
use crate::scale::ScaleFingerprint;
use crate::scoring::{
    ContextModel, GenreModel, least, magic_weight, frequency_score, position_score, valence_score,
    complexity_score, genre_fit, genre_fit_total, genre_weight_total, genre_score, chromatic_count,
    scale_compatibility, context_score, voice_leading_score, harmonic_function_score,
    resolution_score, theory_score, weighted_score, confidence, repeats_recent, window_start,
};
use crate::text::{text_eq, to_lowercase, lowercase_of};
use crate::lists::texts;
use crate::theory::get_stable_scale_degrees;
use crate::text::decimal_digits;
use crate::trie::{
    ChordProgressionTrie, PatternResult, HitModel, NodeModel, hits_of, walk, search_keys,
    search_encodable, search_models, chord_refusal, too_long_reason,
};

verus! {

/// A genre and how much it weighs in the context.
#[derive(Debug, PartialEq, Eq)]
pub struct GenreWeight {
    pub genre: String,
    pub weight: Fixed,
}

impl View for GenreWeight {
    type V = GenreModel;

    open spec fn view(&self) -> GenreModel {
        GenreModel { genre: self.genre@, weight: self.weight.value() }
    }
}

impl Clone for GenreWeight {
    fn clone(&self) -> (r: Self)
        ensures
            r@ == self@,
    {
        GenreWeight { genre: self.genre.clone(), weight: self.weight }
    }
}

/// The models of a sequence of genre weights.
pub open spec fn genre_models(s: Seq<GenreWeight>) -> Seq<GenreModel> {
    Seq::new(s.len(), |i: int| s[i]@)
}

/// The chords played last, oldest first. The storage is `smallvec::SmallVec`.
#[verifier::external_body]
#[derive(Debug)]
pub struct ChordList {
    inner: SmallVec<[Chord; 8]>,
}

/// The chords that a list holds, in order.
pub uninterp spec fn chord_items(l: ChordList) -> Seq<Chord>;

/// The models of a sequence of chords.
pub open spec fn chord_models(s: Seq<Chord>) -> Seq<ChordModel> {
    Seq::new(s.len(), |i: int| s[i]@)
}

impl View for ChordList {
    type V = Seq<ChordModel>;

    open spec fn view(&self) -> Seq<ChordModel> {
        chord_models(chord_items(*self))
    }
}

/// `SmallVec::new`: the new list holds nothing.
#[verifier::external_body]
fn chords_empty() -> (l: ChordList)
    ensures
        chord_items(l) == Seq::<Chord>::empty(),
{
    ChordList { inner: SmallVec::new() }
}

/// `SmallVec::push`: the value is appended and nothing else changes.
#[verifier::external_body]
fn chords_push(l: &mut ChordList, value: Chord)
    ensures
        chord_items(*final(l)) == chord_items(*old(l)).push(value),
{
    l.inner.push(value)
}

/// `SmallVec::as_slice`: the slice holds the list's items in order.
#[verifier::external_body]
fn chords_slice(l: &ChordList) -> (s: &[Chord])
    ensures
        s@ == chord_items(*l),
{
    l.inner.as_slice()
}

impl ChordList {
    pub fn new() -> (l: ChordList)
        ensures
            l@ == Seq::<ChordModel>::empty(),
    {
        chords_empty()
    }

    pub fn push(&mut self, value: Chord)
        ensures
            final(self)@ == old(self)@.push(value@),
    {
        chords_push(self, value)
    }

    pub fn as_slice(&self) -> (s: &[Chord])
        ensures
            chord_models(s@) == self@,
    {
        chords_slice(self)
    }

    pub fn len(&self) -> (n: usize)
        ensures
            n == self@.len(),
    {
        chords_slice(self).len()
    }
}

impl Clone for ChordList {
    fn clone(&self) -> (r: Self)
        ensures
            r@ == self@,
    {
        let s = chords_slice(self);
        let mut r = chords_empty();
        let mut i: usize = 0;
        while i < s.len()
            invariant
                i <= s.len(),
                chord_items(r).len() == i,
                forall|j: int| 0 <= j < i ==> chord_items(r)[j]@ == s@[j]@,
            decreases s.len() - i,
        {
            chords_push(&mut r, s[i].clone());
            i = i + 1;
        }
        assert(r@ =~= chord_models(s@));
        r
    }
}

/// What the scorer is asked to take into account.
#[derive(Debug)]
pub struct SuggestionContext {
    /// The scale of the piece, if known.
    pub scale_fingerprint: Option<ScaleFingerprint>,
    /// Where in the progression the next chord falls, from 0 to 1.
    pub position_in_progression: Fixed,
    /// The valence aimed at, from -1 to 1.
    pub target_valence: Fixed,
    /// The complexity preferred, from 0 to 1.
    pub complexity_preference: Fixed,
    /// The genres aimed at, each with its weight.
    pub genre_weights: Vec<GenreWeight>,
    /// How many of the recent chords a suggestion must not repeat.
    pub avoid_repetition_within: usize,
    /// The chords played last, oldest first.
    pub recent_chords: ChordList,
}

impl View for SuggestionContext {
    type V = ContextModel;

    open spec fn view(&self) -> ContextModel {
        ContextModel {
            has_scale: self.scale_fingerprint is Some,
            position: self.position_in_progression.value(),
            target_valence: self.target_valence.value(),
            complexity_preference: self.complexity_preference.value(),
            genres: genre_models(self.genre_weights@),
            avoid_repetition_within: self.avoid_repetition_within as nat,
            recent: self.recent_chords@,
        }
    }
}

impl Default for SuggestionContext {
    /// No scale, the middle of the progression, neutral valence, medium
    /// complexity, no genres, and the last four chords not to be repeated.
    fn default() -> (c: Self)
        ensures
            c@ == (ContextModel {
                has_scale: false,
                position: 500_000,
                target_valence: 0,
                complexity_preference: 500_000,
                genres: Seq::empty(),
                avoid_repetition_within: 4,
                recent: Seq::empty(),
            }),
    {
        let c = SuggestionContext {
            scale_fingerprint: None,
            position_in_progression: Fixed { micros: 500_000 },
            target_valence: Fixed { micros: 0 },
            complexity_preference: Fixed { micros: 500_000 },
            genre_weights: Vec::new(),
            avoid_repetition_within: 4,
            recent_chords: ChordList::new(),
        };
        assert(c@.genres =~= Seq::<GenreModel>::empty());
        c
    }
}

/// How suggestions are made.
#[derive(Debug, Clone, Copy, PartialEq, Eq)]
pub struct SuggestionConfig {
    /// The most suggestions to return.
    pub max_suggestions: usize,
    /// The confidence below which a candidate is dropped.
    pub min_confidence: Fixed,
    /// How deep patterns are searched.
    pub search_depth: usize,
    /// Asks for a selection by chance; the selection is by score all the same.
    pub use_probabilistic: bool,
    /// The temperature of a selection by chance.
    pub temperature: Fixed,
    /// Whether the context score counts.
    pub enable_context_weighting: bool,
}

impl Default for SuggestionConfig {
    /// Up to a hundred suggestions of confidence 0.3 or more, with context
    /// weighting.
    fn default() -> (c: Self)
        ensures
            c.max_suggestions == 100,
            c.min_confidence.micros == 300_000,
            c.search_depth == 3,
            !c.use_probabilistic,
            c.temperature.micros == SCALE,
            c.enable_context_weighting,
    {
        SuggestionConfig {
            max_suggestions: processing().max_suggestions as usize,
            min_confidence: quality().confidence_threshold,
            search_depth: 3,
            use_probabilistic: false,
            temperature: Fixed { micros: 1_000_000 },
            enable_context_weighting: true,
        }
    }
}

/// A suggested chord with its scores.
#[derive(Debug)]
pub struct ChordSuggestion {
    /// The suggested chord.
    pub chord: Chord,
    /// The confidence in the suggestion.
    pub confidence: Fixed,
    /// The frequency score.
    pub frequency_score: Fixed,
    /// The context score.
    pub context_score: Fixed,
    /// The theory score.
    pub theory_score: Fixed,
    /// The score by which suggestions are ordered.
    pub weighted_score: Fixed,
    /// The match that the suggestion was made from.
    pub pattern_info: PatternResult,
    /// Why the chord is suggested, in words.
    pub reasoning: String,
}

/// A suggestion as a mathematical value.
pub struct SuggestionModel {
    pub chord: ChordModel,
    pub confidence: int,
    pub frequency_score: int,
    pub context_score: int,
    pub theory_score: int,
    pub weighted_score: int,
    pub pattern_info: HitModel,
    pub reasoning: Seq<char>,
}

impl Scored for SuggestionModel {
    open spec fn score(&self) -> int {
        self.weighted_score
    }
}

impl View for ChordSuggestion {
    type V = SuggestionModel;

    open spec fn view(&self) -> SuggestionModel {
        SuggestionModel {
            chord: self.chord@,
            confidence: self.confidence.value(),
            frequency_score: self.frequency_score.value(),
            context_score: self.context_score.value(),
            theory_score: self.theory_score.value(),
            weighted_score: self.weighted_score.value(),
            pattern_info: self.pattern_info@,
            reasoning: self.reasoning@,
        }
    }
}

impl Clone for ChordSuggestion {
    fn clone(&self) -> (r: Self)
        ensures
            r@ == self@,
    {
        ChordSuggestion {
            chord: self.chord.clone(),
            confidence: self.confidence,
            frequency_score: self.frequency_score,
            context_score: self.context_score,
            theory_score: self.theory_score,
            weighted_score: self.weighted_score,
            pattern_info: self.pattern_info.clone(),
            reasoning: self.reasoning.clone(),
        }
    }
}

/// The models of a sequence of suggestions.
pub open spec fn suggestions_of(v: Seq<ChordSuggestion>) -> Seq<SuggestionModel> {
    Seq::new(v.len(), |i: int| v[i]@)
}

/// A copy of a list of suggestions.
pub fn copy_suggestions(v: &Vec<ChordSuggestion>) -> (r: Vec<ChordSuggestion>)
    ensures
        suggestions_of(r@) == suggestions_of(v@),
{
    let mut r: Vec<ChordSuggestion> = Vec::new();
    let mut i: usize = 0;
    while i < v.len()
        invariant
            i <= v@.len(),
            r@.len() == i,
            forall|j: int| 0 <= j < i ==> r@[j]@ == v@[j]@,
        decreases v@.len() - i,
    {
        r.push(v[i].clone());
        i = i + 1;
    }
    assert(suggestions_of(r@) =~= suggestions_of(v@));
    r
}

/// `dashmap::DashMap`, a map for callers on several threads. Nothing is
/// known of a value of it but what the functions below say.
#[verifier::external_type_specification]
#[verifier::external_body]
#[verifier::reject_recursive_types(K)]
#[verifier::reject_recursive_types(V)]
#[verifier::reject_recursive_types(S)]
pub struct ExDashMap<K, V, S>(DashMap<K, V, S>);

/// The key of the cache: the length of the pattern, the position and the
/// target valence in hundredths, and the number of suggestions asked for.
pub type CacheKey = (usize, i64, i64, usize);

/// The cache of suggestions, a `dashmap::DashMap`.
pub type SuggestionCache = DashMap<CacheKey, Vec<ChordSuggestion>>;

/// The entries of an empty cache.
pub open spec fn no_entries() -> Map<CacheKey, Seq<SuggestionModel>> {
    Map::empty()
}

/// What a cache of suggestions holds: the suggestions remembered under each key.
pub uninterp spec fn cache_entries(
    c: SuggestionCache,
) -> Map<CacheKey, Seq<SuggestionModel>>;

/// `DashMap::new`: the new map holds nothing.
#[verifier::external_body]
fn cache_new() -> (c: SuggestionCache)
    ensures
        cache_entries(c) == no_entries(),
{
    DashMap::new()
}

/// `DashMap::get`, with a copy of the value found: there is a value exactly
/// for the keys of the map, and it is the value remembered under the key.
#[verifier::external_body]
fn cache_get(
    c: &SuggestionCache,
    key: CacheKey,
) -> (r: Option<Vec<ChordSuggestion>>)
    ensures
        r is Some <==> cache_entries(*c).dom().contains(key),
        r matches Some(v) ==> suggestions_of(v@) == cache_entries(*c)[key],
{
    match c.get(&key) {
        Some(found) => Some(found.value().clone()),
        None => None,
    }
}

/// `DashMap::insert`: the value is remembered under the key, in place of
/// what was remembered under it before; nothing else changes.
#[verifier::external_body]
fn cache_insert(
    c: &mut SuggestionCache,
    key: CacheKey,
    value: Vec<ChordSuggestion>,
)
    ensures
        cache_entries(*final(c)) == cache_entries(*old(c)).insert(key, suggestions_of(value@)),
{
    c.insert(key, value);
}

/// `DashMap::clear`: the map holds nothing afterwards.
#[verifier::external_body]
fn cache_clear(c: &mut SuggestionCache)
    ensures
        cache_entries(*final(c)) == no_entries(),
{
    c.clear();
}

/// `DashMap::len`: the number of keys of the map.
#[verifier::external_body]
fn cache_len(c: &SuggestionCache) -> (count: usize)
    ensures
        count == cache_entries(*c).dom().len(),
{
    c.len()
}

/// `DashMap::capacity`: how many entries the map has room for.
#[verifier::external_body]
fn cache_capacity(c: &SuggestionCache) -> (n: usize) {
    c.capacity()
}

/// `std::time::Instant`, a moment of the clock. Nothing is known of it.
#[verifier::external_type_specification]
#[verifier::external_body]
pub struct ExInstant(std::time::Instant);

/// `Instant::now`: the present moment.
#[verifier::external_body]
pub(crate) fn clock_now() -> (t: std::time::Instant) {
    std::time::Instant::now()
}

/// `Instant::elapsed`: the time that has passed since the moment.
#[verifier::external_body]
fn clock_elapsed(since: &std::time::Instant) -> (passed: std::time::Duration) {
    since.elapsed()
}

/// `Duration::as_secs`: the whole seconds of a time.
#[verifier::external_body]
fn whole_seconds(passed: &std::time::Duration) -> (secs: u64) {
    passed.as_secs()
}

/// `Duration::as_millis`: the whole milliseconds of a time.
#[verifier::external_body]
fn whole_milliseconds(passed: &std::time::Duration) -> (ms: u128) {
    passed.as_millis()
}

/// The whole seconds that have passed since a moment.
pub(crate) fn clock_elapsed_secs(since: &std::time::Instant) -> (secs: u64) {
    let passed = clock_elapsed(since);
    whole_seconds(&passed)
}

/// The whole milliseconds that have passed since a moment, as far as 64
/// bits hold them.
pub(crate) fn clock_elapsed_ms(since: &std::time::Instant) -> (ms: u64) {
    let passed = clock_elapsed(since);
    let ms = whole_milliseconds(&passed);
    if ms > 0xFFFF_FFFF_FFFF_FFFF {
        0xFFFF_FFFF_FFFF_FFFF
    } else {
        ms as u64
    }
}

/// The greatest magnitude, in millionths, of a score that the combining
/// formulas take.
pub const SCORE_BOUND: i64 = 9_000_000_000_000_000;

/// Whether a number is small enough for the combining formulas.
pub open spec fn moderate(x: Fixed) -> bool {
    -SCORE_BOUND <= x.micros <= SCORE_BOUND
}

/// The scorer, with its memory of earlier answers.
pub struct ChordProgressionSuggester {
    suggestion_cache: SuggestionCache,
    avg_suggestion_time_ms: Fixed,
    confidence_threshold: Fixed,
}

impl ChordProgressionSuggester {
    /// The suggestions that the scorer remembers, by key.
    pub closed spec fn cache(&self) -> Map<CacheKey, Seq<SuggestionModel>> {
        cache_entries(self.suggestion_cache)
    }

    /// The weight below which a candidate for a gap is dropped, in millionths.
    pub closed spec fn threshold(&self) -> int {
        self.confidence_threshold.value()
    }

    /// The running average of the time that a call took, in milliseconds.
    pub closed spec fn average_ms(&self) -> int {
        self.avg_suggestion_time_ms.value()
    }

    /// A scorer that remembers nothing, with the threshold of the
    /// configuration.
    pub fn new() -> (s: Self)
        ensures
            s.cache() == no_entries(),
            s.threshold() == 300_000,
            s.average_ms() == 0,
    {
        ChordProgressionSuggester {
            suggestion_cache: cache_new(),
            avg_suggestion_time_ms: Fixed { micros: 0 },
            confidence_threshold: quality().confidence_threshold,
        }
    }

    /// Sets the weight below which a candidate for a gap is dropped.
    pub fn set_confidence_threshold(&mut self, threshold: Fixed)
        ensures
            final(self).threshold() == threshold.value(),
            final(self).cache() == old(self).cache(),
            final(self).average_ms() == old(self).average_ms(),
    {
        self.confidence_threshold = threshold;
    }

    /// The weight of a candidate for a gap with `prev_length` chords before
    /// it and `next_length` behind it, in a search pattern of `total_length`
    /// positions, from the relative count of the candidate.
    pub fn compute_weight_from_spec(
        &self,
        prev_length: usize,
        next_length: usize,
        total_length: usize,
        _id_count: u64,
        relative_count: Fixed,
    ) -> (w: Fixed)
        requires
            prev_length <= u32::MAX,
            next_length <= u32::MAX,
            total_length <= u32::MAX,
            0 <= relative_count.micros,
        ensures
            w.value() == magic_weight(
                prev_length as int,
                next_length as int,
                total_length as int,
                relative_count.value(),
            ),
    {
        let length: i128 = prev_length as i128 + next_length as i128;
        let matched: i128 = if total_length == 0 {
            1_000_000
        } else {
            let rest: i128 = total_length as i128 - length;
            assert(-8_600_000_000_000_000 <= rest * 1_000_000 <= 4_300_000_000_000_000)
                by (nonlinear_arith)
                requires
                    -8_589_934_590 <= rest <= 4_294_967_295,
            ;
            1_000_000 - floor_div(rest * 1_000_000, total_length as i128)
        };
        let factor: i128 = if next_length > prev_length {
            1_700_000
        } else {
            1_000_000
        };
        assert(0 <= length * factor <= 15_000_000_000_000_000) by (nonlinear_arith)
            requires
                0 <= length <= 8_589_934_590,
                0 <= factor <= 1_700_000,
        ;
        let bonus: i128 = length * factor;
        assert(0 <= relative_count.micros * bonus <= 0x7fff_ffff_ffff_ffff
            * 15_000_000_000_000_000) by (nonlinear_arith)
            requires
                0 <= relative_count.micros <= 0x7fff_ffff_ffff_ffff,
                0 <= bonus <= 15_000_000_000_000_000,
        ;
        let raw = floor_div((relative_count.micros as i128) * bonus, 10_000_000_000);
        let strength: i64 = if raw > 1_000_000 {
            1_000_000
        } else {
            raw as i64
        };
        let w = scale_by(matched as i64, strength);
        Fixed { micros: w }
    }

    /// The frequency score of a match.
    pub fn calculate_frequency_score(&self, result: &PatternResult) -> (s: Fixed)
        ensures
            s.value() == frequency_score(result.count as int),
            0 <= s.value() <= SCALE,
    {
        let scaled: u64 = (result.count as u64) * 1000;
        if scaled > 1_000_000 {
            Fixed { micros: 1_000_000 }
        } else {
            Fixed { micros: scaled as i64 }
        }
    }

    /// The confidence in a suggestion with this weighted score.
    pub fn calculate_confidence(&self, weighted_score: Fixed, result: &PatternResult) -> (c: Fixed)
        requires
            moderate(weighted_score),
        ensures
            c.value() == confidence(weighted_score.value(), result.count as int),
    {
        let scaled: u64 = (result.count as u64) * 10_000;
        let by_count: i128 = if scaled > 1_000_000 {
            1_000_000
        } else {
            scaled as i128
        };
        let half = floor_div(weighted_score.micros as i128 + by_count, 2);
        Fixed { micros: half as i64 }
    }

    /// The weighted score of three scores.
    pub fn calculate_weighted_score(
        &self,
        frequency_score: Fixed,
        context_score: Fixed,
        theory_score: Fixed,
        config: &SuggestionConfig,
    ) -> (w: Fixed)
        requires
            0 <= frequency_score.micros <= SCORE_BOUND,
            0 <= context_score.micros <= SCORE_BOUND,
            0 <= theory_score.micros <= SCORE_BOUND,
        ensures
            w.value() == weighted_score(
                frequency_score.value(),
                context_score.value(),
                theory_score.value(),
                config.enable_context_weighting,
            ),
            0 <= w.value() <= SCORE_BOUND,
            frequency_score.micros <= SCALE && context_score.micros <= SCALE
                && theory_score.micros <= SCALE ==> w.value() <= SCALE,
    {
        let f = scale_by(frequency_score.micros, 400_000);
        let c = if config.enable_context_weighting {
            scale_by(context_score.micros, 350_000)
        } else {
            0
        };
        let t = scale_by(theory_score.micros, 250_000);
        proof {
            lemma_share(frequency_score.micros as int, 400_000, 2, 5);
            lemma_share(context_score.micros as int, 350_000, 7, 20);
            lemma_share(theory_score.micros as int, 250_000, 1, 4);
        }
        Fixed { micros: f + c + t }
    }

    /// How well a chord suits a position in the progression.
    pub fn calculate_position_score(&self, chord: &Chord, position: Fixed) -> (s: Fixed)
        ensures
            s.value() == position_score(chord@, position.value()),
            0 <= s.value() <= SCALE,
    {
        let p = position.micros;
        let base: i64 = if chord.chord_type == 5 {
            if p < 250_000 {
                800_000
            } else if p > 750_000 {
                900_000
            } else {
                600_000
            }
        } else if chord.chord_type == 7 {
            if p > 500_000 {
                800_000
            } else {
                500_000
            }
        } else {
            500_000
        };
        let tonic: i64 = if chord.root == 1 && !(200_000 <= p && p <= 800_000) {
            200_000
        } else {
            0
        };
        let total = base + tonic;
        Fixed {
            micros: if total > 1_000_000 {
                1_000_000
            } else {
                total
            },
        }
    }

    /// How close the valence of a chord comes to the target.
    pub fn calculate_valence_score(&self, chord: &Chord, target_valence: Fixed) -> (s: Fixed)
        ensures
            s.value() == valence_score(chord@, target_valence.value()),
            0 <= s.value() <= SCALE,
    {
        let by_type: i128 = if chord.chord_type == 5 {
            match chord.root {
                1 | 4 | 5 => 600_000,
                2 | 3 | 6 => -200_000,
                7 => -400_000,
                _ => 0,
            }
        } else if chord.chord_type == 7 {
            match chord.root {
                1 => 400_000,
                5 => 100_000,
                2 | 6 => -100_000,
                _ => 0,
            }
        } else {
            0
        };
        let lowered = capped_times(chord.alterations.len(), 100_000, 10_000_000);
        let own = clamp_to(by_type - lowered, -1_000_000, 1_000_000);
        let target = target_valence.micros as i128;
        let apart: i128 = if own as i128 >= target {
            own as i128 - target
        } else {
            target - own as i128
        };
        let s = 1_000_000 - apart / 2;
        Fixed { micros: clamp_to(s, 0, 1_000_000) }
    }

    /// How close the complexity of a chord comes to the preference.
    pub fn calculate_complexity_score(&self, chord: &Chord, preference: Fixed) -> (s: Fixed)
        ensures
            s.value() == complexity_score(chord@, preference.value()),
            0 <= s.value() <= SCALE,
    {
        let base: i128 = match chord.chord_type {
            5 => 100_000,
            7 => 300_000,
            9 => 500_000,
            11 => 700_000,
            13 => 900_000,
            _ => 500_000,
        };
        let altered = capped_times(chord.alterations.len(), 100_000, 10_000_000);
        let held = capped_times(chord.suspensions.len(), 50_000, 10_000_000);
        let added = capped_times(chord.adds.len(), 50_000, 10_000_000);
        let left = capped_times(chord.omits.len(), 50_000, 10_000_000);
        let own = clamp_to(base + altered + held + added + left, 0, 1_000_000);
        let wanted = preference.micros as i128;
        let apart: i128 = if own as i128 >= wanted {
            own as i128 - wanted
        } else {
            wanted - own as i128
        };
        Fixed { micros: clamp_to(1_000_000 - apart, 0, 1_000_000) }
    }

    /// How well a chord suits a genre, by the name of the genre in any case.
    fn genre_fit_of(chord: &Chord, genre: &str) -> (fit: i128)
        ensures
            fit == genre_fit(chord@, lowercase_of(genre@)),
            -10_000_000 <= fit <= 11_000_000,
    {
        let lower = to_lowercase(genre);
        let name = lower.as_str();
        let t = chord.chord_type;
        if text_eq(name, "pop") {
            if t == 5 {
                900_000
            } else if t == 7 {
                600_000
            } else {
                300_000
            }
        } else if text_eq(name, "jazz") {
            let base: i128 = if t == 5 {
                400_000
            } else if t == 7 {
                800_000
            } else if t == 9 || t == 11 || t == 13 {
                900_000
            } else {
                500_000
            };
            base + capped_times(chord.alterations.len(), 100_000, 10_000_000)
        } else if text_eq(name, "classical") {
            let base: i128 = if t == 5 {
                800_000
            } else if t == 7 {
                700_000
            } else {
                500_000
            };
            base - capped_times(chord.alterations.len(), 50_000, 5_000_000)
        } else if text_eq(name, "blues") {
            let base: i128 = if t == 7 {
                900_000
            } else if t == 5 {
                600_000
            } else {
                400_000
            };
            if chord.root == 5 {
                base + 100_000
            } else {
                base
            }
        } else if text_eq(name, "rock") {
            if t == 5 {
                800_000
            } else if t == 7 {
                500_000
            } else {
                300_000
            }
        } else {
            500_000
        }
    }
}

/// A share `num / den` of a score, written as a factor in millionths, is not
/// above that share of the score.
proof fn lemma_share(x: int, factor: int, num: int, den: int)
    requires
        0 <= x,
        0 < den,
        0 <= num,
        factor * den == num * 1_000_000,
    ensures
        0 <= scaled_mul(x, factor),
        scaled_mul(x, factor) * den <= x * num,
{
    assert(0 <= factor) by (nonlinear_arith)
        requires
            factor * den == num * 1_000_000,
            0 < den,
            0 <= num,
    ;
    assert(0 <= x * factor) by (nonlinear_arith)
        requires
            0 <= x,
            0 <= factor,
    ;
    vstd::arithmetic::div_mod::lemma_div_pos_is_pos(x * factor, 1_000_000);
    let q = (x * factor) / 1_000_000;
    vstd::arithmetic::div_mod::lemma_fundamental_div_mod(x * factor, 1_000_000);
    vstd::arithmetic::div_mod::lemma_mod_bound(x * factor, 1_000_000);
    assert(q * 1_000_000 <= x * factor) by (nonlinear_arith)
        requires
            x * factor == 1_000_000 * q + (x * factor) % 1_000_000,
            0 <= (x * factor) % 1_000_000,
    ;
    assert(q * den * 1_000_000 <= x * num * 1_000_000) by (nonlinear_arith)
        requires
            q * 1_000_000 <= x * factor,
            factor * den == num * 1_000_000,
            0 < den,
    ;
    assert(q * den <= x * num) by (nonlinear_arith)
        requires
            q * den * 1_000_000 <= x * num * 1_000_000,
    ;
}

/// Whether a text holds the character.
fn text_contains(text: &str, c: char) -> (b: bool)
    ensures
        b == text@.contains(c),
{
    let n = text.unicode_len();
    let mut i: usize = 0;
    while i < n
        invariant
            i <= n,
            n == text@.len(),
            forall|j: int| 0 <= j < i ==> text@[j] != c,
        decreases n - i,
    {
        if text.get_char(i) == c {
            return true;
        }
        i = i + 1;
    }
    false
}

/// The sums of the genre scorer do not exceed what the number of genres allows.
proof fn lemma_genre_totals(m: ChordModel, genres: Seq<GenreModel>, upto: nat)
    requires
        upto <= genres.len(),
        forall|i: int| 0 <= i < genres.len() ==> (#[trigger] genres[i]).weight <= 0x7fff_ffff_ffff_ffff,
    ensures
        0 <= genre_weight_total(genres, upto) <= upto * 0x7fff_ffff_ffff_ffff,
        -upto * 0x7fff_ffff_ffff_ffff * 10_000_000 <= genre_fit_total(m, genres, upto) <= upto
            * 0x7fff_ffff_ffff_ffff * 11_000_000,
    decreases upto,
{
    if upto > 0 {
        lemma_genre_totals(m, genres, (upto - 1) as nat);
        let g = genres[upto - 1];
        let fit = genre_fit(m, lowercase_of(g.genre));
        assert(-10_000_000 <= fit <= 11_000_000);
        if g.weight > 0 {
            assert(-0x7fff_ffff_ffff_ffff * 10_000_000 <= fit * g.weight <= 0x7fff_ffff_ffff_ffff
                * 11_000_000) by (nonlinear_arith)
                requires
                    -10_000_000 <= fit <= 11_000_000,
                    0 < g.weight <= 0x7fff_ffff_ffff_ffff,
            ;
        }
        assert(upto * 0x7fff_ffff_ffff_ffff == (upto - 1) * 0x7fff_ffff_ffff_ffff
            + 0x7fff_ffff_ffff_ffff) by (nonlinear_arith);
        assert(upto * 0x7fff_ffff_ffff_ffff * 11_000_000 == (upto - 1) * 0x7fff_ffff_ffff_ffff
            * 11_000_000 + 0x7fff_ffff_ffff_ffff * 11_000_000) by (nonlinear_arith);
        assert(-upto * 0x7fff_ffff_ffff_ffff * 10_000_000 == -(upto - 1) * 0x7fff_ffff_ffff_ffff
            * 10_000_000 - 0x7fff_ffff_ffff_ffff * 10_000_000) by (nonlinear_arith);
    }
}

impl ChordProgressionSuggester {
    /// The genre score of a chord: the weighted mean of its fits over the
    /// genres with a positive weight.
    pub fn calculate_genre_score(&self, chord: &Chord, genre_weights: &Vec<GenreWeight>) -> (s:
        Fixed)
        requires
            genre_weights@.len() <= u32::MAX,
        ensures
            s.value() == genre_score(chord@, genre_models(genre_weights@)),
            0 <= s.value() <= SCALE,
    {
        let ghost genres = genre_models(genre_weights@);
        let mut fits: i128 = 0;
        let mut weights: i128 = 0;
        let n = genre_weights.len();
        let mut i: usize = 0;
        while i < n
            invariant
                i <= n,
                n == genre_weights@.len(),
                n <= u32::MAX,
                genres == genre_models(genre_weights@),
                fits == genre_fit_total(chord@, genres, i as nat),
                weights == genre_weight_total(genres, i as nat),
            decreases n - i,
        {
            let g = &genre_weights[i];
            assert(genres[i as int] == g@);
            proof {
                lemma_genre_totals(chord@, genres, i as nat);
                lemma_genre_totals(chord@, genres, (i + 1) as nat);
                assert(i * 0x7fff_ffff_ffff_ffff <= 0xffff_ffff * 0x7fff_ffff_ffff_ffff)
                    by (nonlinear_arith)
                    requires
                        i <= 0xffff_ffff,
                ;
                assert((i + 1) * 0x7fff_ffff_ffff_ffff * 11_000_000 <= 0x1_0000_0000
                    * 0x7fff_ffff_ffff_ffff * 11_000_000) by (nonlinear_arith)
                    requires
                        i + 1 <= 0x1_0000_0000,
                ;
                assert(-(i + 1) * 0x7fff_ffff_ffff_ffff * 10_000_000 >= -0x1_0000_0000
                    * 0x7fff_ffff_ffff_ffff * 10_000_000) by (nonlinear_arith)
                    requires
                        i + 1 <= 0x1_0000_0000,
                ;
                assert(i * 0x7fff_ffff_ffff_ffff * 11_000_000 <= 0x1_0000_0000
                    * 0x7fff_ffff_ffff_ffff * 11_000_000) by (nonlinear_arith)
                    requires
                        i <= 0x1_0000_0000,
                ;
                assert(-i * 0x7fff_ffff_ffff_ffff * 10_000_000 >= -0x1_0000_0000
                    * 0x7fff_ffff_ffff_ffff * 10_000_000) by (nonlinear_arith)
                    requires
                        i <= 0x1_0000_0000,
                ;
            }
            if g.weight.micros > 0 {
                let fit = Self::genre_fit_of(chord, g.genre.as_str());
                assert(-0x7fff_ffff_ffff_ffff * 10_000_000 <= fit * g.weight.micros
                    <= 0x7fff_ffff_ffff_ffff * 11_000_000) by (nonlinear_arith)
                    requires
                        -10_000_000 <= fit <= 11_000_000,
                        0 < g.weight.micros <= 0x7fff_ffff_ffff_ffff,
                ;
                fits = fits + fit * (g.weight.micros as i128);
                weights = weights + g.weight.micros as i128;
            }
            i = i + 1;
        }
        proof {
            lemma_genre_totals(chord@, genres, n as nat);
            assert(n * 0x7fff_ffff_ffff_ffff * 11_000_000 <= 0x1_0000_0000 * 0x7fff_ffff_ffff_ffff
                * 11_000_000) by (nonlinear_arith)
                requires
                    n <= 0x1_0000_0000,
            ;
            assert(-n * 0x7fff_ffff_ffff_ffff * 10_000_000 >= -0x1_0000_0000
                * 0x7fff_ffff_ffff_ffff * 10_000_000) by (nonlinear_arith)
                requires
                    n <= 0x1_0000_0000,
            ;
            assert(n * 0x7fff_ffff_ffff_ffff <= 0x1_0000_0000 * 0x7fff_ffff_ffff_ffff)
                by (nonlinear_arith)
                requires
                    n <= 0x1_0000_0000,
            ;
        }
        if weights > 0 {
            let mean = floor_div(fits, weights);
            Fixed { micros: clamp_to(mean, 0, 1_000_000) }
        } else {
            Fixed { micros: 500_000 }
        }
    }

    /// How well a chord fits the scale.
    pub fn calculate_scale_compatibility(&self, chord: &Chord, scale: &ScaleFingerprint) -> (s:
        Fixed)
        ensures
            s.value() == scale_compatibility(chord@),
            0 <= s.value() <= SCALE,
    {
        match get_stable_scale_degrees(chord, scale) {
            Ok(degrees) => {
                let ghost names = texts(degrees@);
                let n = degrees.len();
                let mut chromatic: usize = 0;
                let mut i: usize = 0;
                while i < n
                    invariant
                        i <= n,
                        n == degrees@.len(),
                        names == texts(degrees@),
                        chromatic == chromatic_count(names, i as nat),
                        chromatic <= i,
                    decreases n - i,
                {
                    let d = degrees[i].as_str();
                    assert(names[i as int] == d@);
                    if text_contains(d, '#') || text_contains(d, 'b') {
                        chromatic = chromatic + 1;
                    }
                    i = i + 1;
                }
                let base: i128 = if n >= 7 {
                    1_000_000
                } else {
                    ((n as i128) * 1_000_000) / 7
                };
                proof {
                    if n >= 7 {
                        assert(scaled_ratio(n as int, 7) >= 1_000_000) by {
                            vstd::arithmetic::div_mod::lemma_div_is_ordered(
                                7_000_000,
                                n * 1_000_000,
                                7,
                            );
                        }
                    }
                }
                let penalty = capped_times(chromatic, 100_000, 10_000_000);
                Fixed { micros: clamp_to(base - penalty, 0, 1_000_000) }
            },
            Err(_) => Fixed { micros: 300_000 },
        }
    }

    /// The context score of a chord.
    pub fn calculate_context_score(&self, chord: &Chord, context: &SuggestionContext) -> (s: Fixed)
        requires
            context.genre_weights@.len() <= u32::MAX,
        ensures
            s.value() == context_score(chord@, context@),
            0 <= s.value() <= SCALE,
    {
        let mut score: i64 = 500_000;
        match &context.scale_fingerprint {
            Some(scale) => {
                let compat = self.calculate_scale_compatibility(chord, scale);
                score = score + scale_by(compat.micros, 300_000);
            },
            None => {},
        }
        let by_position = self.calculate_position_score(chord, context.position_in_progression);
        score = score + scale_by(by_position.micros, 200_000);
        let by_valence = self.calculate_valence_score(chord, context.target_valence);
        score = score + scale_by(by_valence.micros, 200_000);
        let by_complexity = self.calculate_complexity_score(chord, context.complexity_preference);
        score = score + scale_by(by_complexity.micros, 100_000);
        if context.genre_weights.len() > 0 {
            let by_genre = self.calculate_genre_score(chord, &context.genre_weights);
            score = score + scale_by(by_genre.micros, 200_000);
        }
        Fixed { micros: clamp_to(score as i128, 0, 1_000_000) }
    }

    /// The quality of the voice leading from one chord to the next.
    pub fn calculate_voice_leading_score(&self, prev_chord: &Chord, chord: &Chord) -> (s: Fixed)
        ensures
            s.value() == voice_leading_score(prev_chord@, chord@),
            0 <= s.value() <= SCALE,
    {
        if prev_chord.is_rest || chord.is_rest {
            return Fixed { micros: 500_000 };
        }
        let apart: u8 = if chord.root >= prev_chord.root {
            chord.root - prev_chord.root
        } else {
            prev_chord.root - chord.root
        };
        let movement = apart % 7;
        let by_movement: i64 = match movement {
            0 => 300_000,
            1 => 900_000,
            2 => 800_000,
            3 => 600_000,
            4 => 700_000,
            5 => 500_000,
            _ => 400_000,
        };
        let from = prev_chord.root;
        let to = chord.root;
        let cadence: i64 = if (from == 5 && to == 1) || (from == 2 && to == 5) {
            200_000
        } else if (from == 4 && to == 5) || (from == 1 && to == 6) {
            100_000
        } else {
            0
        };
        let by_type: i64 = if prev_chord.chord_type == chord.chord_type {
            100_000
        } else if prev_chord.chord_type > chord.chord_type {
            50_000
        } else {
            0
        };
        let total = by_movement + cadence + by_type;
        Fixed {
            micros: if total > 1_000_000 {
                1_000_000
            } else {
                total
            },
        }
    }

    /// The strength of the harmonic function of a chord after a pattern.
    pub fn calculate_harmonic_function_score(&self, chord: &Chord, pattern: &[Chord]) -> (s: Fixed)
        ensures
            s.value() == harmonic_function_score(chord@, chord_models(pattern@)),
            0 <= s.value() <= SCALE,
    {
        if pattern.len() == 0 {
            return Fixed { micros: 500_000 };
        }
        let prev = &pattern[pattern.len() - 1];
        assert(chord_models(pattern@).last() == prev@);
        let strength: i64 = match chord.root {
            1 => 900_000,
            5 => 800_000,
            4 => 700_000,
            2 => 600_000,
            6 => 600_000,
            3 => 400_000,
            7 => 500_000,
            _ => 300_000,
        };
        let from = prev.root;
        let to = chord.root;
        let by_context: i64 = if from == 5 && to == 1 {
            300_000
        } else if (from == 2 && to == 5) || (from == 4 && to == 5) {
            200_000
        } else if (from == 1 && to == 4) || (from == 1 && to == 6) || (from == 6 && to == 4) {
            100_000
        } else if (from == 1 && to == 2) || (from == 1 && to == 3) {
            -100_000
        } else {
            0
        };
        let t = chord.chord_type;
        let by_type: i64 = if (to == 5 && t == 7) || (to == 2 && t == 7) {
            100_000
        } else if (to == 1 && t == 5) || (to == 4 && t == 5) {
            50_000
        } else {
            0
        };
        Fixed { micros: clamp_to((strength + by_context + by_type) as i128, 0, 1_000_000) }
    }

    /// The resolution tendency of a chord after a pattern.
    pub fn calculate_resolution_score(&self, chord: &Chord, pattern: &[Chord]) -> (s: Fixed)
        ensures
            s.value() == resolution_score(chord@, chord_models(pattern@)),
            0 <= s.value() <= SCALE,
    {
        if pattern.len() == 0 {
            return Fixed { micros: 500_000 };
        }
        let prev = &pattern[pattern.len() - 1];
        assert(chord_models(pattern@).last() == prev@);
        let tendency: i64 = match chord.root {
            5 => if chord.chord_type == 7 {
                900_000
            } else {
                700_000
            },
            7 => 800_000,
            2 => 600_000,
            4 => 400_000,
            1 => 100_000,
            _ => 300_000,
        };
        let by_context: i64 = match prev.root {
            5 => 1_200_000,
            7 => 1_100_000,
            2 => 1_100_000,
            _ => 1_000_000,
        };
        let by_type: i64 = match chord.chord_type {
            7 => 1_100_000,
            9 | 11 | 13 => 1_200_000,
            _ => 1_000_000,
        };
        let first = scale_by(tendency, by_context);
        let second = scale_by(first, by_type);
        let ghost count = chord@.alterations.len();
        let ghost exact = (1_000_000 + 50_000 * count) as int;
        let extra = capped_times(chord.alterations.len(), 50_000, 99_000_000);
        let by_alterations: i64 = (1_000_000 + extra) as i64;
        let third = scale_by(second, by_alterations);
        proof {
            assert(100_000 <= first <= 1_080_000);
            assert(100_000 <= second <= 1_296_000);
            if 50_000 * count > 99_000_000 {
                // both products are above one, so both scores are one
                assert(second * 100_000_000 <= second * exact) by (nonlinear_arith)
                    requires
                        second >= 0,
                        exact >= 100_000_000,
                ;
                assert(100_000 * 100_000_000 <= second * 100_000_000) by (nonlinear_arith)
                    requires
                        second >= 100_000,
                ;
                vstd::arithmetic::div_mod::lemma_div_is_ordered(
                    10_000_000_000_000int,
                    second * exact,
                    1_000_000,
                );
                vstd::arithmetic::div_mod::lemma_div_is_ordered(
                    10_000_000_000_000int,
                    second * 100_000_000,
                    1_000_000,
                );
            }
        }
        Fixed {
            micros: if third > 1_000_000 {
                1_000_000
            } else {
                third
            },
        }
    }

    /// The theory score of a chord after a pattern.
    pub fn calculate_theory_score(
        &self,
        chord: &Chord,
        pattern: &[Chord],
        _context: &SuggestionContext,
    ) -> (s: Fixed)
        ensures
            s.value() == theory_score(chord@, chord_models(pattern@)),
            0 <= s.value() <= SCALE,
    {
        let mut score: i64 = 500_000;
        if pattern.len() > 0 {
            let prev = &pattern[pattern.len() - 1];
            assert(chord_models(pattern@).last() == prev@);
            let leading = self.calculate_voice_leading_score(prev, chord);
            score = score + scale_by(leading.micros, 400_000);
        }
        let function = self.calculate_harmonic_function_score(chord, pattern);
        score = score + scale_by(function.micros, 300_000);
        let resolution = self.calculate_resolution_score(chord, pattern);
        score = score + scale_by(resolution.micros, 300_000);
        Fixed { micros: clamp_to(score as i128, 0, 1_000_000) }
    }

    /// Whether a chord repeats, in root and type, one of the recent chords
    /// that are not to be repeated.
    pub fn should_avoid_chord(&self, chord: &Chord, context: &SuggestionContext) -> (b: bool)
        ensures
            b == repeats_recent(chord@, context@.recent, context@.avoid_repetition_within),
    {
        let recent = context.recent_chords.as_slice();
        let window = context.avoid_repetition_within;
        let start = if recent.len() >= window {
            recent.len() - window
        } else {
            0
        };
        let mut i: usize = start;
        while i < recent.len()
            invariant
                start <= i <= recent@.len(),
                start == window_start(context@.recent, window as nat),
                window == context.avoid_repetition_within,
                chord_models(recent@) == context@.recent,
                forall|j: int|
                    start <= j < i ==> !((#[trigger] context@.recent[j]).root == chord.root
                        && context@.recent[j].chord_type == chord.chord_type),
            decreases recent@.len() - i,
        {
            assert(context@.recent[i as int] == recent@[i as int]@);
            if recent[i].root == chord.root && recent[i].chord_type == chord.chord_type {
                assert(context@.recent.len() == recent@.len());
                return true;
            }
            i = i + 1;
        }
        false
    }
}

/// The texts one after the other with `separator` between them.
pub open spec fn listed(parts: Seq<Seq<char>>, separator: Seq<char>) -> Seq<char>
    decreases parts.len(),
{
    if parts.len() == 0 {
        Seq::empty()
    } else if parts.len() == 1 {
        parts[0]
    } else {
        listed(parts.drop_last(), separator) + separator + parts.last()
    }
}

/// The reasons in one breath: all but the last with commas between them,
/// then `and` and the last; a single reason stands alone.
pub open spec fn enumerated(reasons: Seq<Seq<char>>) -> Seq<char> {
    if reasons.len() <= 1 {
        listed(reasons, ", "@)
    } else {
        listed(reasons.drop_last(), ", "@) + " and "@ + reasons.last()
    }
}

/// Why a chord was suggested, in a sentence.
pub open spec fn sentence(reasons: Seq<Seq<char>>) -> Seq<char> {
    if reasons.len() == 0 {
        "reasonable harmonic choice"@
    } else {
        "Suggested because it "@ + enumerated(reasons)
    }
}

/// What the frequency score says for a chord.
pub open spec fn frequency_reason(frequency: int) -> Seq<Seq<char>> {
    if frequency > 800_000 {
        seq!["very commonly used in similar progressions"@]
    } else if frequency > 600_000 {
        seq!["frequently found in similar contexts"@]
    } else if frequency > 400_000 {
        seq!["occasionally used in this style"@]
    } else {
        Seq::empty()
    }
}

/// What the context score says for a chord, where the scale is known.
pub open spec fn context_reason(context: int, has_scale: bool) -> Seq<Seq<char>> {
    if context > 700_000 && has_scale {
        seq!["fits excellently in the current key"@]
    } else if context > 500_000 && has_scale {
        seq!["works well in the current key"@]
    } else {
        Seq::empty()
    }
}

/// What the theory score says for a chord after a pattern.
pub open spec fn theory_reason(m: ChordModel, pattern: Seq<ChordModel>, theory: int) -> Seq<
    Seq<char>,
> {
    if theory > 700_000 && pattern.len() > 0 {
        let from = pattern.last().root;
        if from == 5 && m.root == 1 {
            seq!["provides strong dominant-tonic resolution"@]
        } else if from == 2 && m.root == 5 {
            seq!["continues ii-V motion"@]
        } else if from == 4 && m.root == 5 {
            seq!["creates effective IV-V progression"@]
        } else {
            seq!["provides good voice leading"@]
        }
    } else {
        Seq::empty()
    }
}

/// What the type of a chord says for it.
pub open spec fn chord_reason(m: ChordModel) -> Seq<Seq<char>> {
    if m.chord_type == 7 && m.root == 5 {
        seq!["dominant seventh adds harmonic tension"@]
    } else if m.chord_type == 7 {
        seq!["seventh chord enriches the harmony"@]
    } else if m.chord_type == 9 || m.chord_type == 11 || m.chord_type == 13 {
        seq!["extended harmony adds sophistication"@]
    } else {
        Seq::empty()
    }
}

/// What the position in the progression says for a chord.
pub open spec fn position_reason(m: ChordModel, position: int) -> Seq<Seq<char>> {
    if position > 800_000 {
        if m.root == 1 {
            seq!["provides strong conclusive resolution"@]
        } else if m.root == 5 {
            seq!["builds tension toward resolution"@]
        } else {
            Seq::empty()
        }
    } else if position < 300_000 {
        if m.root == 1 {
            seq!["establishes tonal center"@]
        } else if m.root == 4 {
            seq!["creates departure from tonic"@]
        } else {
            Seq::empty()
        }
    } else {
        Seq::empty()
    }
}

/// The reasons for a suggestion, in order: frequency, context, theory, the
/// type of the chord, the position.
pub open spec fn reasons_for(
    m: ChordModel,
    pattern: Seq<ChordModel>,
    c: ContextModel,
    frequency: int,
    context: int,
    theory: int,
) -> Seq<Seq<char>> {
    frequency_reason(frequency) + context_reason(context, c.has_scale) + theory_reason(
        m,
        pattern,
        theory,
    ) + chord_reason(m) + position_reason(m, c.position)
}

/// What the weight of a candidate for a gap says.
pub open spec fn strength_reason(weight: int) -> Seq<char> {
    if weight > 800_000 {
        "exceptionally strong statistical match"@
    } else if weight > 600_000 {
        "strong statistical match with context"@
    } else if weight > 400_000 {
        "good statistical support"@
    } else if weight > 200_000 {
        "moderate statistical evidence"@
    } else {
        "limited statistical support"@
    }
}

/// What the count of a match says.
pub open spec fn count_reason(count: nat) -> Seq<Seq<char>> {
    if count > 500 {
        seq!["very frequently used in similar progressions"@]
    } else if count > 100 {
        seq!["commonly found in this context"@]
    } else if count > 20 {
        seq!["occasionally used in similar situations"@]
    } else if count > 5 {
        seq!["rarely but consistently appears"@]
    } else {
        Seq::empty()
    }
}

/// What the rank of a match says.
pub open spec fn rank_reason(rank: nat) -> Seq<Seq<char>> {
    if rank <= 3 {
        seq!["among top choices for this pattern"@]
    } else if rank <= 10 {
        seq!["popular choice for this context"@]
    } else {
        Seq::empty()
    }
}

/// What the relative frequency of a match says.
pub open spec fn relative_reason(relative: int) -> Seq<Seq<char>> {
    if relative > 100_000 {
        seq!["represents significant portion of pattern usage"@]
    } else if relative > 50_000 {
        seq!["notable frequency in this pattern type"@]
    } else {
        Seq::empty()
    }
}

/// The reasons for a candidate for a gap, in order: the weight, the count,
/// the rank, the relative frequency.
pub open spec fn magic_reasons(weight: int, h: HitModel) -> Seq<Seq<char>> {
    seq![strength_reason(weight)] + count_reason(h.count) + rank_reason(h.rank) + relative_reason(
        h.relative_count,
    )
}

/// The characters of each text of a sequence.
pub open spec fn reason_views(v: Seq<&'static str>) -> Seq<Seq<char>> {
    Seq::new(v.len(), |i: int| v[i]@)
}

/// The texts one after the other with `separator` between them.
fn list_reasons(reasons: &Vec<&'static str>, upto: usize, separator: &str) -> (r: String)
    requires
        upto <= reasons@.len(),
    ensures
        r@ == listed(reason_views(reasons@).subrange(0, upto as int), separator@),
{
    let ghost all = reason_views(reasons@);
    let mut r = String::new();
    let mut i: usize = 0;
    assert(all.subrange(0, 0) =~= Seq::<Seq<char>>::empty());
    while i < upto
        invariant
            i <= upto <= reasons@.len(),
            all == reason_views(reasons@),
            r@ == listed(all.subrange(0, i as int), separator@),
        decreases upto - i,
    {
        if i > 0 {
            r.append(separator);
        }
        r.append(reasons[i]);
        i = i + 1;
        proof {
            let now = all.subrange(0, i as int);
            assert(now.drop_last() =~= all.subrange(0, i - 1));
            assert(now.last() == reasons@[i - 1]@);
            assert(r@ =~= listed(now, separator@));
        }
    }
    r
}

/// The reasons in one breath.
fn enumerate_reasons(reasons: &Vec<&'static str>) -> (r: String)
    ensures
        r@ == enumerated(reason_views(reasons@)),
{
    let ghost all = reason_views(reasons@);
    let n = reasons.len();
    if n <= 1 {
        let r = list_reasons(reasons, n, ", ");
        assert(all.subrange(0, n as int) =~= all);
        r
    } else {
        let mut r = list_reasons(reasons, n - 1, ", ");
        assert(all.subrange(0, n - 1) =~= all.drop_last());
        r.append(" and ");
        r.append(reasons[n - 1]);
        assert(all.last() == reasons@[n - 1]@);
        r
    }
}

/// Appends what the frequency score says for a chord.
fn push_frequency_reason(reasons: &mut Vec<&'static str>, frequency: i64)
    ensures
        reason_views(final(reasons)@) == reason_views(old(reasons)@) + frequency_reason(
            frequency as int,
        ),
{
    let ghost before = reason_views(reasons@);
    if frequency > 800_000 {
        reasons.push("very commonly used in similar progressions");
    } else if frequency > 600_000 {
        reasons.push("frequently found in similar contexts");
    } else if frequency > 400_000 {
        reasons.push("occasionally used in this style");
    }
    assert(reason_views(reasons@) =~= before + frequency_reason(frequency as int));
}

/// Appends what the context score says for a chord.
fn push_context_reason(reasons: &mut Vec<&'static str>, context: i64, has_scale: bool)
    ensures
        reason_views(final(reasons)@) == reason_views(old(reasons)@) + context_reason(
            context as int,
            has_scale,
        ),
{
    let ghost before = reason_views(reasons@);
    if context > 700_000 && has_scale {
        reasons.push("fits excellently in the current key");
    } else if context > 500_000 && has_scale {
        reasons.push("works well in the current key");
    }
    assert(reason_views(reasons@) =~= before + context_reason(context as int, has_scale));
}

/// Appends what the theory score says for a chord after a pattern.
fn push_theory_reason(
    reasons: &mut Vec<&'static str>,
    chord: &Chord,
    pattern: &[Chord],
    theory: i64,
)
    ensures
        reason_views(final(reasons)@) == reason_views(old(reasons)@) + theory_reason(
            chord@,
            chord_models(pattern@),
            theory as int,
        ),
{
    let ghost before = reason_views(reasons@);
    if theory > 700_000 && pattern.len() > 0 {
        let prev = &pattern[pattern.len() - 1];
        assert(chord_models(pattern@).last() == prev@);
        if prev.root == 5 && chord.root == 1 {
            reasons.push("provides strong dominant-tonic resolution");
        } else if prev.root == 2 && chord.root == 5 {
            reasons.push("continues ii-V motion");
        } else if prev.root == 4 && chord.root == 5 {
            reasons.push("creates effective IV-V progression");
        } else {
            reasons.push("provides good voice leading");
        }
    }
    assert(reason_views(reasons@) =~= before + theory_reason(
        chord@,
        chord_models(pattern@),
        theory as int,
    ));
}

/// Appends what the type of a chord says for it.
fn push_chord_reason(reasons: &mut Vec<&'static str>, chord: &Chord)
    ensures
        reason_views(final(reasons)@) == reason_views(old(reasons)@) + chord_reason(chord@),
{
    let ghost before = reason_views(reasons@);
    let t = chord.chord_type;
    if t == 7 && chord.root == 5 {
        reasons.push("dominant seventh adds harmonic tension");
    } else if t == 7 {
        reasons.push("seventh chord enriches the harmony");
    } else if t == 9 || t == 11 || t == 13 {
        reasons.push("extended harmony adds sophistication");
    }
    assert(reason_views(reasons@) =~= before + chord_reason(chord@));
}

/// Appends what the position in the progression says for a chord.
fn push_position_reason(reasons: &mut Vec<&'static str>, chord: &Chord, position: i64)
    ensures
        reason_views(final(reasons)@) == reason_views(old(reasons)@) + position_reason(
            chord@,
            position as int,
        ),
{
    let ghost before = reason_views(reasons@);
    if position > 800_000 {
        if chord.root == 1 {
            reasons.push("provides strong conclusive resolution");
        } else if chord.root == 5 {
            reasons.push("builds tension toward resolution");
        }
    } else if position < 300_000 {
        if chord.root == 1 {
            reasons.push("establishes tonal center");
        } else if chord.root == 4 {
            reasons.push("creates departure from tonic");
        }
    }
    assert(reason_views(reasons@) =~= before + position_reason(chord@, position as int));
}

impl ChordProgressionSuggester {
    /// Why a chord is suggested after a pattern, in a sentence.
    pub fn generate_reasoning(
        &self,
        chord: &Chord,
        pattern: &[Chord],
        context: &SuggestionContext,
        frequency_score: Fixed,
        context_score: Fixed,
        theory_score: Fixed,
    ) -> (r: String)
        ensures
            r@ == sentence(
                reasons_for(
                    chord@,
                    chord_models(pattern@),
                    context@,
                    frequency_score.value(),
                    context_score.value(),
                    theory_score.value(),
                ),
            ),
    {
        let mut reasons: Vec<&'static str> = Vec::new();
        assert(reason_views(reasons@) =~= Seq::<Seq<char>>::empty());
        push_frequency_reason(&mut reasons, frequency_score.micros);
        push_context_reason(
            &mut reasons,
            context_score.micros,
            context.scale_fingerprint.is_some(),
        );
        push_theory_reason(&mut reasons, chord, pattern, theory_score.micros);
        push_chord_reason(&mut reasons, chord);
        push_position_reason(&mut reasons, chord, context.position_in_progression.micros);
        assert(reason_views(reasons@) =~= reasons_for(
            chord@,
            chord_models(pattern@),
            context@,
            frequency_score.value(),
            context_score.value(),
            theory_score.value(),
        ));
        if reasons.len() == 0 {
            String::from_str("reasonable harmonic choice")
        } else {
            let mut r = String::from_str("Suggested because it ");
            let rest = enumerate_reasons(&reasons);
            r.append(rest.as_str());
            r
        }
    }

    /// Why a chord is suggested for a gap, in words.
    pub fn generate_magic_chord_reasoning(&self, weight: Fixed, result: &PatternResult) -> (r:
        String)
        ensures
            r@ == enumerated(magic_reasons(weight.value(), result@)),
    {
        let mut reasons: Vec<&'static str> = Vec::new();
        let w = weight.micros;
        if w > 800_000 {
            reasons.push("exceptionally strong statistical match");
        } else if w > 600_000 {
            reasons.push("strong statistical match with context");
        } else if w > 400_000 {
            reasons.push("good statistical support");
        } else if w > 200_000 {
            reasons.push("moderate statistical evidence");
        } else {
            reasons.push("limited statistical support");
        }
        assert(reason_views(reasons@) =~= seq![strength_reason(w as int)]);
        let ghost first = reason_views(reasons@);
        if result.count > 500 {
            reasons.push("very frequently used in similar progressions");
        } else if result.count > 100 {
            reasons.push("commonly found in this context");
        } else if result.count > 20 {
            reasons.push("occasionally used in similar situations");
        } else if result.count > 5 {
            reasons.push("rarely but consistently appears");
        }
        assert(reason_views(reasons@) =~= first + count_reason(result.count as nat));
        let ghost second = reason_views(reasons@);
        if result.rank <= 3 {
            reasons.push("among top choices for this pattern");
        } else if result.rank <= 10 {
            reasons.push("popular choice for this context");
        }
        assert(reason_views(reasons@) =~= second + rank_reason(result.rank as nat));
        let ghost third = reason_views(reasons@);
        if result.relative_count.micros > 100_000 {
            reasons.push("represents significant portion of pattern usage");
        } else if result.relative_count.micros > 50_000 {
            reasons.push("notable frequency in this pattern type");
        }
        assert(reason_views(reasons@) =~= third + relative_reason(result.relative_count.value()));
        enumerate_reasons(&reasons)
    }
}

/// The suggestion that a match gives for a gap: the chord that its key
/// spells, with the weight of the context window as its confidence, context
/// score and weighted score, and its relative frequency as its frequency
/// score. A match whose key spells no chord gives none, and neither does a
/// match whose weight is below the threshold.
pub open spec fn magic_candidate(h: HitModel, prev: int, next: int, total: int, threshold: int)
    -> Option<SuggestionModel> {
    if !decodable(h.key) {
        None
    } else {
        let w = magic_weight(prev, next, total, h.relative_count);
        if w < threshold {
            None
        } else {
            Some(
                SuggestionModel {
                    chord: decoded(h.key),
                    confidence: w,
                    frequency_score: h.relative_count,
                    context_score: w,
                    theory_score: 500_000,
                    weighted_score: w,
                    pattern_info: h,
                    reasoning: enumerated(magic_reasons(w, h)),
                },
            )
        }
    }
}

/// The suggestions that the first `upto` matches give for a gap, in the
/// order of the matches.
pub open spec fn magic_candidates(
    hits: Seq<HitModel>,
    prev: int,
    next: int,
    total: int,
    threshold: int,
    upto: nat,
) -> Seq<SuggestionModel>
    decreases upto,
{
    if upto == 0 || upto > hits.len() {
        Seq::empty()
    } else {
        let before = magic_candidates(hits, prev, next, total, threshold, (upto - 1) as nat);
        match magic_candidate(hits[upto - 1], prev, next, total, threshold) {
            Some(s) => before.push(s),
            None => before,
        }
    }
}

/// The suggestion that a match gives for the next chord after a pattern: the
/// chord that its key spells, with its scores. A match gives none where its
/// key spells no chord, where the chord repeats a recent one, and where the
/// confidence is below the least that the configuration asks for. Without
/// context weighting the context score is one half and does not count.
pub open spec fn scored_candidate(
    h: HitModel,
    pattern: Seq<ChordModel>,
    c: ContextModel,
    config: SuggestionConfig,
) -> Option<SuggestionModel> {
    if !decodable(h.key) {
        None
    } else {
        let m = decoded(h.key);
        if repeats_recent(m, c.recent, c.avoid_repetition_within) {
            None
        } else {
            let f = frequency_score(h.count as int);
            let cs = if config.enable_context_weighting {
                context_score(m, c)
            } else {
                500_000
            };
            let t = theory_score(m, pattern);
            let w = weighted_score(f, cs, t, config.enable_context_weighting);
            let conf = confidence(w, h.count as int);
            if conf < config.min_confidence.value() {
                None
            } else {
                Some(
                    SuggestionModel {
                        chord: m,
                        confidence: conf,
                        frequency_score: f,
                        context_score: cs,
                        theory_score: t,
                        weighted_score: w,
                        pattern_info: h,
                        reasoning: sentence(reasons_for(m, pattern, c, f, cs, t)),
                    },
                )
            }
        }
    }
}

/// The suggestions that the first `upto` matches give for the next chord, in
/// the order of the matches.
pub open spec fn scored_candidates(
    hits: Seq<HitModel>,
    pattern: Seq<ChordModel>,
    c: ContextModel,
    config: SuggestionConfig,
    upto: nat,
) -> Seq<SuggestionModel>
    decreases upto,
{
    if upto == 0 || upto > hits.len() {
        Seq::empty()
    } else {
        let before = scored_candidates(hits, pattern, c, config, (upto - 1) as nat);
        match scored_candidate(hits[upto - 1], pattern, c, config) {
            Some(s) => before.push(s),
            None => before,
        }
    }
}

/// Puts a suggestion in its place among the best `limit` found so far, and
/// drops the last one if there are then too many.
pub(crate) fn keep_best_suggestion(results: &mut Vec<ChordSuggestion>, found: ChordSuggestion, limit: usize)
    requires
        old(results)@.len() <= limit,
    ensures
        suggestions_of(final(results)@) == bounded_insert(
            suggestions_of(old(results)@),
            found@,
            limit as int,
        ),
        final(results)@.len() <= limit,
{
    let ghost acc = suggestions_of(results@);
    let ghost w = found@.weighted_score;
    if limit == 0 {
        assert(suggestions_of(results@) =~= Seq::<SuggestionModel>::empty());
        return ;
    }
    let mut p: usize = 0;
    while p < results.len() && results[p].weighted_score.micros >= found.weighted_score.micros
        invariant
            p <= results@.len(),
            acc == suggestions_of(results@),
            w == found@.weighted_score,
            insertion_point(acc, w, 0) == insertion_point(acc, w, p as int),
        decreases results@.len() - p,
    {
        assert(acc[p as int].score() >= w);
        p = p + 1;
    }
    assert(insertion_point(acc, w, 0) == p) by {
        if p < results@.len() {
            assert(acc[p as int].score() < w);
        }
    }
    if p >= limit {
        assert(top(acc.insert(p as int, found@), limit as int) =~= acc);
        return ;
    }
    results.insert(p, found);
    assert(suggestions_of(results@) =~= acc.insert(p as int, found@));
    if results.len() > limit {
        results.truncate(limit);
        assert(suggestions_of(results@) =~= top(acc.insert(p as int, found@), limit as int));
    }
}

/// Collecting one more item is one bounded insertion.
pub(crate) proof fn lemma_collected_push(
    items: Seq<SuggestionModel>,
    next: SuggestionModel,
    limit: int,
)
    ensures
        collected(Seq::empty(), items.push(next), limit) == bounded_insert(
            collected(Seq::empty(), items, limit),
            next,
            limit,
        ),
{
    assert(items.push(next).drop_last() =~= items);
}

impl ChordProgressionSuggester {
    /// The best `limit` suggestions that the matches give for a gap, by
    /// descending weight, suggestions of equal weight in the order of
    /// their matches.
    pub fn apply_magic_chord_weighting(
        &self,
        pattern_results: Vec<PatternResult>,
        prev_length: usize,
        next_length: usize,
        total_length: usize,
        limit: usize,
    ) -> (r: AiResult<Vec<ChordSuggestion>>)
        requires
            prev_length <= u32::MAX,
            next_length <= u32::MAX,
            total_length <= u32::MAX,
            forall|i: int|
                0 <= i < pattern_results@.len() ==> 0 <= (
                #[trigger] pattern_results@[i]).relative_count.micros,
        ensures
            r matches Ok(v) && suggestions_of(v@) == top(
                sorted_desc(
                    magic_candidates(
                        hits_of(pattern_results@),
                        prev_length as int,
                        next_length as int,
                        total_length as int,
                        self.threshold(),
                        pattern_results@.len(),
                    ),
                ),
                limit as int,
            ) && v@.len() <= limit,
    {
        let ghost hits = hits_of(pattern_results@);
        let mut out: Vec<ChordSuggestion> = Vec::new();
        assert(suggestions_of(out@) =~= Seq::<SuggestionModel>::empty());
        let n = pattern_results.len();
        let mut i: usize = 0;
        while i < n
            invariant
                i <= n,
                n == pattern_results@.len(),
                hits == hits_of(pattern_results@),
                prev_length <= u32::MAX,
                next_length <= u32::MAX,
                total_length <= u32::MAX,
                forall|k: int|
                    0 <= k < pattern_results@.len() ==> 0 <= (
                    #[trigger] pattern_results@[k]).relative_count.micros,
                out@.len() <= limit,
                suggestions_of(out@) == collected(
                    Seq::empty(),
                    magic_candidates(
                        hits,
                        prev_length as int,
                        next_length as int,
                        total_length as int,
                        self.threshold(),
                        i as nat,
                    ),
                    limit as int,
                ),
            decreases n - i,
        {
            let result = &pattern_results[i];
            assert(hits[i as int] == result@);
            let ghost before = magic_candidates(
                hits,
                prev_length as int,
                next_length as int,
                total_length as int,
                self.threshold(),
                i as nat,
            );
            match deserialize_chord(&result.serialized_chord) {
                Ok(chord) => {
                    let weight = self.compute_weight_from_spec(
                        prev_length,
                        next_length,
                        total_length,
                        result.count as u64,
                        result.relative_count,
                    );
                    if weight.micros >= self.confidence_threshold.micros {
                        let reasoning = self.generate_magic_chord_reasoning(weight, result);
                        let suggestion = ChordSuggestion {
                            chord,
                            confidence: weight,
                            frequency_score: result.relative_count,
                            context_score: weight,
                            theory_score: Fixed { micros: 500_000 },
                            weighted_score: weight,
                            pattern_info: result.clone(),
                            reasoning,
                        };
                        proof {
                            lemma_collected_push(before, suggestion@, limit as int);
                        }
                        keep_best_suggestion(&mut out, suggestion, limit);
                    }
                },
                Err(_) => {},
            }
            i = i + 1;
        }
        proof {
            lemma_collected(
                magic_candidates(
                    hits,
                    prev_length as int,
                    next_length as int,
                    total_length as int,
                    self.threshold(),
                    n as nat,
                ),
                limit as int,
            );
        }
        Ok(out)
    }

    /// The best suggestions that the matches give for the next chord after a
    /// pattern, by descending weighted score, suggestions of equal score in
    /// the order of their matches, and no more than the configuration asks
    /// for. The selection is by score whether or not the configuration asks
    /// for a selection by chance.
    pub fn score_and_rank_suggestions(
        &self,
        pattern_results: Vec<PatternResult>,
        current_pattern: &[Chord],
        context: &SuggestionContext,
        config: &SuggestionConfig,
    ) -> (r: AiResult<Vec<ChordSuggestion>>)
        requires
            context.genre_weights@.len() <= u32::MAX,
        ensures
            r matches Ok(v) && suggestions_of(v@) == top(
                sorted_desc(
                    scored_candidates(
                        hits_of(pattern_results@),
                        chord_models(current_pattern@),
                        context@,
                        *config,
                        pattern_results@.len(),
                    ),
                ),
                config.max_suggestions as int,
            ) && v@.len() <= config.max_suggestions,
    {
        let ghost hits = hits_of(pattern_results@);
        let ghost pattern = chord_models(current_pattern@);
        let limit = config.max_suggestions;
        let mut out: Vec<ChordSuggestion> = Vec::new();
        assert(suggestions_of(out@) =~= Seq::<SuggestionModel>::empty());
        let n = pattern_results.len();
        let mut i: usize = 0;
        while i < n
            invariant
                i <= n,
                n == pattern_results@.len(),
                hits == hits_of(pattern_results@),
                pattern == chord_models(current_pattern@),
                limit == config.max_suggestions,
                context.genre_weights@.len() <= u32::MAX,
                out@.len() <= limit,
                suggestions_of(out@) == collected(
                    Seq::empty(),
                    scored_candidates(hits, pattern, context@, *config, i as nat),
                    limit as int,
                ),
            decreases n - i,
        {
            let result = &pattern_results[i];
            assert(hits[i as int] == result@);
            let ghost before = scored_candidates(hits, pattern, context@, *config, i as nat);
            match self.score_result(result, current_pattern, context, config) {
                Some(suggestion) => {
                    proof {
                        lemma_collected_push(before, suggestion@, limit as int);
                    }
                    keep_best_suggestion(&mut out, suggestion, limit);
                },
                None => {},
            }
            i = i + 1;
        }
        proof {
            lemma_collected(
                scored_candidates(hits, pattern, context@, *config, n as nat),
                limit as int,
            );
        }
        Ok(out)
    }

    /// The suggestion that one match gives for the next chord after a pattern.
    fn score_result(
        &self,
        result: &PatternResult,
        current_pattern: &[Chord],
        context: &SuggestionContext,
        config: &SuggestionConfig,
    ) -> (r: Option<ChordSuggestion>)
        requires
            context.genre_weights@.len() <= u32::MAX,
        ensures
            match r {
                Some(s) => Some(s@) == scored_candidate(
                    result@,
                    chord_models(current_pattern@),
                    context@,
                    *config,
                ),
                None => scored_candidate(
                    result@,
                    chord_models(current_pattern@),
                    context@,
                    *config,
                ) is None,
            },
    {
        let chord = match deserialize_chord(&result.serialized_chord) {
            Ok(chord) => chord,
            Err(_) => {
                return None;
            },
        };
        if self.should_avoid_chord(&chord, context) {
            return None;
        }
        let frequency = self.calculate_frequency_score(result);
        let in_context = if config.enable_context_weighting {
            self.calculate_context_score(&chord, context)
        } else {
            Fixed { micros: 500_000 }
        };
        let in_theory = self.calculate_theory_score(&chord, current_pattern, context);
        let weighted = self.calculate_weighted_score(frequency, in_context, in_theory, config);
        let sure = self.calculate_confidence(weighted, result);
        if sure.micros < config.min_confidence.micros {
            return None;
        }
        let reasoning = self.generate_reasoning(
            &chord,
            current_pattern,
            context,
            frequency,
            in_context,
            in_theory,
        );
        Some(
            ChordSuggestion {
                chord,
                confidence: sure,
                frequency_score: frequency,
                context_score: in_context,
                theory_score: in_theory,
                weighted_score: weighted,
                pattern_info: result.clone(),
                reasoning,
            },
        )
    }
}

/// Most chords on either side of a gap.
pub const MAX_CONTEXT_CHORDS: usize = 50;

/// Most suggestions that can be asked for a gap.
pub const MAX_GAP_SUGGESTIONS: usize = 100;

/// Longest pattern that suggestions are made for.
pub const MAX_SUGGESTION_PATTERN: usize = 20;

/// The keys of the search for a gap: the chords before it, a wildcard, the
/// chords behind it.
pub open spec fn gap_keys(prev: Seq<ChordModel>, next: Seq<ChordModel>) -> Seq<Option<Seq<u8>>> {
    Seq::new(
        prev.len() + 1 + next.len(),
        |i: int|
            if i < prev.len() {
                Some(encoded(prev[i]))
            } else if i == prev.len() {
                None
            } else {
                Some(encoded(next[i - prev.len() - 1]))
            },
    )
}

/// The search pattern for a gap as values: the chords before it, a
/// wildcard, the chords behind it.
pub open spec fn gap_models(prev: Seq<ChordModel>, next: Seq<ChordModel>) -> Seq<
    Option<ChordModel>,
> {
    Seq::new(
        prev.len() + 1 + next.len(),
        |i: int|
            if i < prev.len() {
                Some(prev[i])
            } else if i == prev.len() {
                None
            } else {
                Some(next[i - prev.len() - 1])
            },
    )
}

/// Whether every chord of a sequence has a binary form.
pub open spec fn models_encodable(s: Seq<ChordModel>) -> bool {
    forall|i: int| 0 <= i < s.len() ==> encodable(#[trigger] s[i])
}

/// Three times `n`, as far as the machine holds it.
pub open spec fn tripled(n: usize) -> usize {
    if n > usize::MAX / 3 {
        usize::MAX
    } else {
        (3 * n) as usize
    }
}

/// The suggestions for a gap: the best `3 * limit` matches of the search
/// are weighed, those below the threshold are dropped, and the best `limit`
/// of the rest are returned by descending weight.
pub open spec fn magic_solutions(
    tree: NodeModel,
    prev: Seq<ChordModel>,
    next: Seq<ChordModel>,
    limit: usize,
    threshold: int,
) -> Seq<SuggestionModel> {
    let hits = top(sorted_desc(walk(tree, gap_keys(prev, next), 0)), tripled(limit) as int);
    top(
        sorted_desc(
            magic_candidates(
                hits,
                prev.len() as int,
                next.len() as int,
                (prev.len() + next.len() + 1) as int,
                threshold,
                hits.len(),
            ),
        ),
        limit as int,
    )
}

/// The suggestions for the next chord after a pattern: the best
/// `3 * max_suggestions` matches of the search are scored, and the best
/// `max_suggestions` of those that pass are returned by descending score.
pub open spec fn contextual_suggestions(
    tree: NodeModel,
    pattern: Seq<ChordModel>,
    c: ContextModel,
    config: SuggestionConfig,
) -> Seq<SuggestionModel> {
    let hits = top(
        sorted_desc(walk(tree, gap_keys(pattern, Seq::empty()), 0)),
        tripled(config.max_suggestions) as int,
    );
    top(
        sorted_desc(scored_candidates(hits, pattern, c, config, hits.len())),
        config.max_suggestions as int,
    )
}

/// Whether an error reports that an operation took more milliseconds than
/// its budget allows.
pub open spec fn over_budget(e: AiError, operation: Seq<char>, budget: u64) -> bool {
    e matches AiError::PerformanceDegradation { operation: name, ms, limit_ms } && name@
        == operation && limit_ms == budget && ms > budget
}

/// What a request for the suggestions for a gap is answered with: it is
/// refused as an invalid pattern where either list has more than fifty
/// chords or more than a hundred suggestions are asked for, and as a failed
/// suggestion where a chord has no binary form, with what is wrong with the
/// first such chord; else it is answered with the
/// suggestions for the gap, unless `timed` holds and the call reports that
/// it took more than the millisecond that a chord lookup may take.
pub open spec fn answers_gap(
    r: AiResult<Vec<ChordSuggestion>>,
    tree: NodeModel,
    prev: Seq<ChordModel>,
    next: Seq<ChordModel>,
    limit: usize,
    threshold: int,
    timed: bool,
) -> bool {
    if prev.len() > MAX_CONTEXT_CHORDS || next.len() > MAX_CONTEXT_CHORDS {
        r matches Err(AiError::InvalidPattern { reason }) && reason@
            == "Maximum 50 chords allowed in pattern"@
    } else if limit > MAX_GAP_SUGGESTIONS {
        r matches Err(AiError::InvalidPattern { reason }) && reason@
            == "Maximum 100 suggestions allowed"@
    } else if !(models_encodable(prev) && models_encodable(next)) {
        r matches Err(AiError::SuggestionFailed { reason }) && reason@ == chord_refusal(
            gap_models(prev, next),
        )
    } else {
        match r {
            Ok(v) => suggestions_of(v@) == magic_solutions(tree, prev, next, limit, threshold)
                && v@.len() <= limit,
            Err(e) => timed && over_budget(e, "magic_chord_solutions"@, 1),
        }
    }
}

/// What a request for the suggestions for the next chord is answered with,
/// and what is remembered afterwards. The request is refused as an invalid
/// pattern where the pattern is empty or longer than twenty chords. An
/// answer that is remembered under the key of the request is returned as it
/// is. Otherwise the request is refused as a failed suggestion where a chord
/// has no binary form; else the answer is worked out and remembered, and
/// returned unless the call reports that it took more than the fifty
/// milliseconds that a suggestion may take.
pub open spec fn answers_request(
    before: Map<CacheKey, Seq<SuggestionModel>>,
    after: Map<CacheKey, Seq<SuggestionModel>>,
    r: AiResult<Vec<ChordSuggestion>>,
    tree: NodeModel,
    pattern: Seq<ChordModel>,
    c: ContextModel,
    config: SuggestionConfig,
) -> bool {
    let key = cache_key_of(pattern.len() as usize, c, config);
    let fresh = contextual_suggestions(tree, pattern, c, config);
    if pattern.len() == 0 {
        r matches Err(AiError::InvalidPattern { reason }) && reason@ == "Pattern cannot be empty"@
            && after == before
    } else if pattern.len() > MAX_SUGGESTION_PATTERN {
        r matches Err(AiError::InvalidPattern { reason }) && reason@ == "Pattern too long: "@
            + decimal_digits(pattern.len()) + " (max: 20)"@ && after == before
    } else if before.dom().contains(key) {
        r matches Ok(v) && suggestions_of(v@) == before[key] && after == before
    } else if !models_encodable(pattern) {
        r matches Err(AiError::SuggestionFailed { reason }) && reason@ == chord_refusal(
            gap_models(pattern, Seq::empty()),
        ) && after == before
    } else {
        after == before.insert(key, fresh) && match r {
            Ok(v) => suggestions_of(v@) == fresh && v@.len() <= config.max_suggestions,
            Err(e) => over_budget(e, "chord_suggestion"@, 50),
        }
    }
}

/// A number of millionths in hundredths, rounded to the nearest, halves up.
pub open spec fn hundredths(micros: int) -> int {
    (micros + 5000) / 10_000
}

/// The key under which the suggestions for a request are remembered.
pub open spec fn cache_key_of(pattern_length: usize, c: ContextModel, config: SuggestionConfig)
    -> CacheKey {
    (
        pattern_length,
        hundredths(c.position) as i64,
        hundredths(c.target_valence) as i64,
        config.max_suggestions,
    )
}

/// The new average of the call times after a call of `ms` milliseconds:
/// nine tenths of the old one and a tenth of the call, in millionths of a
/// millisecond, as far as the bound for scores goes.
pub open spec fn averaged(average: int, ms: u64) -> int {
    least(scaled_mul(average, 900_000) + least(ms * 100_000, SCORE_BOUND as int), SCORE_BOUND as int)
}

/// Three times `n`, as far as the machine holds it.
fn triple(n: usize) -> (r: usize)
    ensures
        r == tripled(n),
{
    if n > usize::MAX / 3 {
        usize::MAX
    } else {
        3 * n
    }
}

/// The search pattern for a gap.
fn gap_pattern(prev: &[Chord], next: &[Chord]) -> (p: Vec<Option<Chord>>)
    requires
        prev@.len() + next@.len() < usize::MAX,
    ensures
        p@.len() == prev@.len() + 1 + next@.len(),
        search_keys(p@) == gap_keys(chord_models(prev@), chord_models(next@)),
        search_models(p@) == gap_models(chord_models(prev@), chord_models(next@)),
        search_encodable(p@) <==> models_encodable(chord_models(prev@)) && models_encodable(
            chord_models(next@),
        ),
{
    let mut p: Vec<Option<Chord>> = Vec::new();
    let mut i: usize = 0;
    while i < prev.len()
        invariant
            i <= prev@.len(),
            p@.len() == i,
            forall|k: int| 0 <= k < i ==> ((#[trigger] p@[k]) matches Some(c) && c@ == prev@[k]@),
        decreases prev@.len() - i,
    {
        p.push(Some(prev[i].clone()));
        i = i + 1;
    }
    p.push(None);
    let mut j: usize = 0;
    while j < next.len()
        invariant
            j <= next@.len(),
            prev@.len() + next@.len() < usize::MAX,
            p@.len() == prev@.len() + 1 + j,
            forall|k: int|
                0 <= k < prev@.len() ==> ((#[trigger] p@[k]) matches Some(c) && c@ == prev@[k]@),
            p@[prev@.len() as int] is None,
            forall|k: int|
                0 <= k < j ==> ((#[trigger] p@[prev@.len() + 1 + k]) matches Some(c) && c@
                    == next@[k]@),
        decreases next@.len() - j,
    {
        p.push(Some(next[j].clone()));
        j = j + 1;
    }
    proof {
        let a = chord_models(prev@);
        let b = chord_models(next@);
        assert forall|k: int| 0 <= k < p@.len() implies search_keys(p@)[k] == gap_keys(a, b)[k] by {
            if k > prev@.len() {
                assert(p@[prev@.len() + 1 + (k - prev@.len() - 1)] is Some);
            }
        }
        assert(search_keys(p@) =~= gap_keys(a, b));
        assert forall|k: int| 0 <= k < p@.len() implies search_models(p@)[k] == gap_models(a, b)[k] by {
            if k > prev@.len() {
                assert(p@[prev@.len() + 1 + (k - prev@.len() - 1)] is Some);
            }
        }
        assert(search_models(p@) =~= gap_models(a, b));
        if search_encodable(p@) {
            assert forall|k: int| 0 <= k < a.len() implies encodable(#[trigger] a[k]) by {
                assert(p@[k] is Some);
            }
            assert forall|k: int| 0 <= k < b.len() implies encodable(#[trigger] b[k]) by {
                assert(p@[prev@.len() + 1 + k] is Some);
            }
        }
        if models_encodable(a) && models_encodable(b) {
            assert forall|k: int| 0 <= k < p@.len() implies ((#[trigger] p@[k]) matches Some(
                chord,
            ) ==> encodable(chord@)) by {
                if k < prev@.len() {
                    assert(encodable(a[k]));
                } else if k > prev@.len() {
                    assert(p@[prev@.len() + 1 + (k - prev@.len() - 1)] is Some);
                    assert(encodable(b[k - prev@.len() - 1]));
                }
            }
        }
    }
    p
}

/// What a call returns once its time is known: a call that took longer than
/// its budget reports that instead of its result.
pub fn within_budget(
    operation: &str,
    elapsed_ms: u64,
    limit_ms: u64,
    suggestions: Vec<ChordSuggestion>,
) -> (r: AiResult<Vec<ChordSuggestion>>)
    ensures
        elapsed_ms > limit_ms ==> (r matches Err(e) && e matches AiError::PerformanceDegradation {
            operation: name,
            ms,
            limit_ms: allowed,
        } && name@ == operation@ && ms == elapsed_ms && allowed == limit_ms),
        elapsed_ms <= limit_ms ==> r == Ok::<Vec<ChordSuggestion>, AiError>(suggestions),
{
    if elapsed_ms > limit_ms {
        Err(
            AiError::PerformanceDegradation {
                operation: String::from_str(operation),
                ms: elapsed_ms,
                limit_ms,
            },
        )
    } else {
        Ok(suggestions)
    }
}

impl ChordProgressionSuggester {
    /// The key under which the suggestions for a request are remembered.
    pub fn generate_cache_key(
        &self,
        pattern: &[Chord],
        context: &SuggestionContext,
        config: &SuggestionConfig,
    ) -> (key: CacheKey)
        ensures
            key == cache_key_of(pattern.len(), context@, *config),
    {
        let position = floor_div(context.position_in_progression.micros as i128 + 5000, 10_000);
        let valence = floor_div(context.target_valence.micros as i128 + 5000, 10_000);
        (pattern.len(), position as i64, valence as i64, config.max_suggestions)
    }

    /// Takes a call of `elapsed_ms` milliseconds into the average.
    pub fn update_performance_metrics(&mut self, elapsed_ms: u64)
        requires
            0 <= old(self).average_ms() <= SCORE_BOUND,
        ensures
            final(self).average_ms() == averaged(old(self).average_ms(), elapsed_ms),
            0 <= final(self).average_ms() <= SCORE_BOUND,
            final(self).cache() == old(self).cache(),
            final(self).threshold() == old(self).threshold(),
    {
        let kept = scale_by(self.avg_suggestion_time_ms.micros, 900_000);
        let added: i128 = if elapsed_ms > 90_000_000_000 {
            9_000_000_000_000_000
        } else {
            (elapsed_ms as i128) * 100_000
        };
        let total: i128 = kept as i128 + added;
        self.avg_suggestion_time_ms = Fixed {
            micros: if total > 9_000_000_000_000_000 {
                9_000_000_000_000_000
            } else {
                total as i64
            },
        };
    }

    /// The average time of a call, in milliseconds.
    pub fn avg_suggestion_time_ms(&self) -> (a: Fixed)
        ensures
            a.value() == self.average_ms(),
    {
        self.avg_suggestion_time_ms
    }

    /// Forgets every remembered answer.
    pub fn clear_cache(&mut self)
        ensures
            final(self).cache() == no_entries(),
            final(self).threshold() == old(self).threshold(),
            final(self).average_ms() == old(self).average_ms(),
    {
        cache_clear(&mut self.suggestion_cache);
    }

    /// How many answers are remembered, and how many there is room for.
    pub fn cache_stats(&self) -> (r: (usize, usize))
        ensures
            r.0 == self.cache().dom().len(),
    {
        (cache_len(&self.suggestion_cache), cache_capacity(&self.suggestion_cache))
    }

    /// The suggestions for a gap between the chords that precede it and the
    /// chords that follow it. The request is refused as an invalid pattern
    /// where either list has more than fifty chords or more than a hundred
    /// suggestions are asked for, and as a failed suggestion where a chord
    /// has no binary form.
    pub fn magic_chord_solutions(
        &self,
        trie: &ChordProgressionTrie,
        previous_chords: &[Chord],
        following_chords: &[Chord],
        limit: usize,
    ) -> (r: AiResult<Vec<ChordSuggestion>>)
        ensures
            answers_gap(
                r,
                trie@.tree,
                chord_models(previous_chords@),
                chord_models(following_chords@),
                limit,
                self.threshold(),
                false,
            ),
    {
        if previous_chords.len() > MAX_CONTEXT_CHORDS || following_chords.len()
            > MAX_CONTEXT_CHORDS {
            return Err(
                AiError::InvalidPattern {
                    reason: String::from_str("Maximum 50 chords allowed in pattern"),
                },
            );
        }
        if limit > MAX_GAP_SUGGESTIONS {
            return Err(
                AiError::InvalidPattern {
                    reason: String::from_str("Maximum 100 suggestions allowed"),
                },
            );
        }
        let search_pattern = gap_pattern(previous_chords, following_chords);
        let found = match trie.search_with_wildcard(search_pattern.as_slice(), triple(limit)) {
            Ok(found) => found,
            Err(e) => {
                return Err(e);
            },
        };
        self.apply_magic_chord_weighting(
            found,
            previous_chords.len(),
            following_chords.len(),
            search_pattern.len(),
            limit,
        )
    }

    /// The suggestions for a gap, with the time of the call taken into the
    /// average. A call that took longer than the budget of a chord lookup
    /// reports a performance degradation instead of its result.
    pub fn get_magic_chord_solutions(
        &mut self,
        trie: &ChordProgressionTrie,
        previous_chords: &[Chord],
        following_chords: &[Chord],
        _scale: &str,
        limit: usize,
    ) -> (r: AiResult<Vec<ChordSuggestion>>)
        requires
            0 <= old(self).average_ms() <= SCORE_BOUND,
        ensures
            final(self).cache() == old(self).cache(),
            final(self).threshold() == old(self).threshold(),
            0 <= final(self).average_ms() <= SCORE_BOUND,
            answers_gap(
                r,
                trie@.tree,
                chord_models(previous_chords@),
                chord_models(following_chords@),
                limit,
                old(self).threshold(),
                true,
            ),
    {
        let started = clock_now();
        let suggestions = match self.magic_chord_solutions(
            trie,
            previous_chords,
            following_chords,
            limit,
        ) {
            Ok(v) => v,
            Err(e) => {
                return Err(e);
            },
        };
        let elapsed = clock_elapsed_ms(&started);
        self.update_performance_metrics(elapsed);
        within_budget(
            "magic_chord_solutions",
            elapsed,
            performance().chord_lookup_max_ms as u64,
            suggestions,
        )
    }

    /// The suggestions for the next chord after a pattern. The request is
    /// refused as an invalid pattern where the pattern is empty or longer
    /// than twenty chords. An answer that is remembered under the key of the
    /// request is returned as it is. Otherwise the request is refused as a
    /// failed suggestion where a chord has no binary form; else the answer
    /// is worked out and remembered, and returned unless the call took
    /// longer than the budget of a suggestion, which is then reported.
    pub fn get_chord_suggestions(
        &mut self,
        trie: &ChordProgressionTrie,
        pattern: &[Chord],
        context: &SuggestionContext,
        config: &SuggestionConfig,
    ) -> (r: AiResult<Vec<ChordSuggestion>>)
        requires
            context.genre_weights@.len() <= u32::MAX,
            0 <= old(self).average_ms() <= SCORE_BOUND,
        ensures
            final(self).threshold() == old(self).threshold(),
            0 <= final(self).average_ms() <= SCORE_BOUND,
            answers_request(
                old(self).cache(),
                final(self).cache(),
                r,
                trie@.tree,
                chord_models(pattern@),
                context@,
                *config,
            ),
    {
        if pattern.len() == 0 {
            return Err(
                AiError::InvalidPattern { reason: String::from_str("Pattern cannot be empty") },
            );
        }
        if pattern.len() > MAX_SUGGESTION_PATTERN {
            return Err(AiError::InvalidPattern { reason: too_long_reason(pattern.len()) });
        }
        let started = clock_now();
        let key = self.generate_cache_key(pattern, context, config);
        match cache_get(&self.suggestion_cache, key) {
            Some(remembered) => {
                return Ok(remembered);
            },
            None => {},
        }
        let nothing: Vec<Chord> = Vec::new();
        assert(chord_models(nothing@) =~= Seq::<ChordModel>::empty());
        let search_pattern = gap_pattern(pattern, nothing.as_slice());
        let found = match trie.search_with_wildcard(
            search_pattern.as_slice(),
            triple(config.max_suggestions),
        ) {
            Ok(found) => found,
            Err(e) => {
                return Err(e);
            },
        };
        let suggestions = match self.score_and_rank_suggestions(found, pattern, context, config) {
            Ok(v) => v,
            Err(e) => {
                return Err(e);
            },
        };
        cache_insert(&mut self.suggestion_cache, key, copy_suggestions(&suggestions));
        let elapsed = clock_elapsed_ms(&started);
        self.update_performance_metrics(elapsed);
        within_budget(
            "chord_suggestion",
            elapsed,
            performance().chord_suggestion_max_ms as u64,
            suggestions,
        )
    }
}

} // verus!
