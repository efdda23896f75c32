//! How hard a progression is to play, and what stands out in it.
//!
//! Every figure is a count of millionths. The difficulty is a polynomial in
//! the weighted sum of four complexities: of the harmony, the rhythm, the
//! technique and the melody of the roots.

use vstd::prelude::*;
use dashmap::DashMap;
use crate::chord::{Chord, ChordModel};
use crate::chord_binary::{ChordBinary, serialize_chord, encodable, encoded};
use crate::error::{AiError, AiResult};
use crate::fixed::{Fixed, clamp, clamp_to, floor_div, capped_times};
use crate::scoring::{least, greatest, distance};
use crate::suggestions::{SCORE_BOUND, chord_models};
use crate::lists::texts;
use crate::text::{text_eq, decimal_text, decimal_digits};
use crate::trie::{ChordProgressionTrie, NodeModel, walk, search_keys};
use crate::ranking::{sorted_desc, top};

verus! {

/// The level of skill that a progression asks for.
#[derive(Debug, Clone, Copy, PartialEq, Eq, Structural)]
pub enum SkillLevel {
    Beginner,
    Intermediate,
    Advanced,
    Expert,
}

/// What the complexities of a progression are worked out from.
#[derive(Debug, Clone, Copy, PartialEq, Eq)]
pub struct ComplexityFactors {
    /// The number of different chords among those with a binary form.
    pub unique_chords: usize,
    /// The mean complexity of the chords.
    pub avg_chord_complexity: Fixed,
    /// The number of times the roots leap away from the key.
    pub key_changes: usize,
    /// The number of steps from one chord to the next that are rare in the store.
    pub uncommon_progressions: usize,
    /// The number of changes of the time signature.
    pub time_signature_changes: usize,
    /// The number of chords that are more than a plain triad.
    pub extended_harmonies: usize,
    /// The mean complexity of the steps from one chord to the next.
    pub voice_leading_complexity: Fixed,
    /// How much the tempo varies.
    pub tempo_variations: Fixed,
}

/// How hard a progression is.
#[derive(Debug, Clone, Copy, PartialEq, Eq)]
pub struct DifficultyAssessment {
    /// The difficulty, from 0 to 10.
    pub overall_score: Fixed,
    pub harmonic_complexity: Fixed,
    pub rhythmic_complexity: Fixed,
    pub technical_complexity: Fixed,
    pub melodic_complexity: Fixed,
    pub factors: ComplexityFactors,
    /// How far the assessment can be trusted, from 0 to 1.
    pub confidence: Fixed,
    pub skill_level: SkillLevel,
}

/// A mode of a key.
#[derive(Debug, Clone, Copy, PartialEq, Eq, Structural)]
pub enum Mode {
    Major,
    Minor,
    Dorian,
    Phrygian,
    Lydian,
    Mixolydian,
    Aeolian,
    Locrian,
}

/// A key that a stretch of a progression stands in.
#[derive(Debug, Clone, Copy, PartialEq, Eq)]
pub struct KeyCenter {
    pub root: u8,
    pub mode: Mode,
    pub confidence: Fixed,
    /// The stretch: from the first index up to the second.
    pub chord_range: (usize, usize),
}

/// A known pattern found in a progression.
#[derive(Debug)]
pub struct CommonPattern {
    pub name: String,
    /// Where it stands: from the first index up to the second.
    pub location: (usize, usize),
    pub popularity: Fixed,
    pub chords: Vec<Chord>,
}

/// The rhythm in which the chords of a progression change.
#[derive(Debug, PartialEq, Eq)]
pub struct HarmonicRhythm {
    pub avg_chord_duration: Fixed,
    pub regularity: Fixed,
    pub rhythm_patterns: Vec<String>,
}

/// What stands out in a progression.
#[derive(Debug)]
pub struct ProgressionAnalysis {
    pub key_centers: Vec<KeyCenter>,
    pub common_patterns: Vec<CommonPattern>,
    pub harmonic_rhythm: HarmonicRhythm,
    pub voice_leading_quality: Fixed,
    pub improvements: Vec<String>,
}

/// What the type of a chord adds to its complexity.
pub open spec fn type_part(chord_type: u8) -> int {
    if chord_type == 5 {
        0
    } else if chord_type == 7 {
        600_000
    } else if chord_type == 9 {
        1_200_000
    } else if chord_type == 11 {
        1_600_000
    } else if chord_type == 13 {
        2_000_000
    } else {
        320_000
    }
}

/// What an alteration adds to the complexity of a chord: more for a raised
/// eleventh and a lowered thirteenth.
pub open spec fn alteration_part(alteration: Seq<char>) -> int {
    if alteration == "#11"@ || alteration == "b13"@ {
        200_000
    } else {
        125_000
    }
}

/// What the first `upto` alterations add to the complexity of a chord.
pub open spec fn alterations_part(alterations: Seq<Seq<char>>, upto: int) -> int
    decreases upto,
{
    if upto <= 0 || upto > alterations.len() {
        0
    } else {
        alterations_part(alterations, upto - 1) + alteration_part(alterations[upto - 1])
    }
}

/// The complexity of a chord: one, and more for its type, for each
/// alteration, for being applied, for its inversion and for each suspended
/// and added tone.
pub open spec fn single_complexity(m: ChordModel) -> int {
    least(
        1_000_000 + type_part(m.chord_type) + alterations_part(
            m.alterations,
            m.alterations.len() as int,
        ) + (if m.applied > 0 {
            200_000int
        } else {
            0
        }) + m.inversion * 50_000 + m.suspensions.len() * 30_000 + m.adds.len() * 40_000,
        SCORE_BOUND as int,
    )
}

/// What a sum of parts up to a bound each can come to.
proof fn lemma_alterations_bound(alterations: Seq<Seq<char>>, upto: int)
    requires
        0 <= upto <= alterations.len(),
    ensures
        0 <= alterations_part(alterations, upto) <= upto * 200_000,
    decreases upto,
{
    if upto > 0 {
        lemma_alterations_bound(alterations, upto - 1);
    }
}

/// The complexity of a chord.
pub fn single_chord_complexity(chord: &Chord) -> (c: Fixed)
    ensures
        c.micros == single_complexity(chord@),
        1_000_000 <= c.micros <= SCORE_BOUND,
{
    let by_type: i128 = match chord.chord_type {
        5 => 0,
        7 => 600_000,
        9 => 1_200_000,
        11 => 1_600_000,
        13 => 2_000_000,
        _ => 320_000,
    };
    let mut altered: i128 = 0;
    let mut i: usize = 0;
    while i < chord.alterations.len()
        invariant
            i <= chord@.alterations.len(),
            altered == alterations_part(chord@.alterations, i as int),
            0 <= altered <= i * 200_000,
        decreases chord@.alterations.len() - i,
    {
        let name = chord.alterations.get(i).as_str();
        if text_eq(name, "#11") || text_eq(name, "b13") {
            altered = altered + 200_000;
        } else {
            altered = altered + 125_000;
        }
        i = i + 1;
    }
    let applied: i128 = if chord.applied > 0 {
        200_000
    } else {
        0
    };
    let more: i128 = chord.inversion as i128 * 50_000 + chord.suspensions.len() as i128 * 30_000
        + chord.adds.len() as i128 * 40_000;
    Fixed { micros: clamp_to(1_000_000 + by_type + altered + applied + more, 0, SCORE_BOUND) }
}

/// The distance between two roots, taken the shorter way round the twelve
/// steps where it is no more than twelve.
pub open spec fn root_interval(from: u8, to: u8) -> int {
    let apart = distance(from as int, to as int);
    if apart <= 12 {
        least(apart, 12 - apart)
    } else {
        apart
    }
}

/// The distance between two roots.
fn calculate_root_interval(from: u8, to: u8) -> (interval: u8)
    ensures
        interval == root_interval(from, to),
{
    let apart: u8 = if from >= to {
        from - to
    } else {
        to - from
    };
    if apart <= 12 {
        if apart <= 12 - apart {
            apart
        } else {
            12 - apart
        }
    } else {
        apart
    }
}

/// Whether a chord is more than a plain triad: a seventh chord or above, or
/// one with an added tone or an alteration.
pub open spec fn is_extended(m: ChordModel) -> bool {
    m.chord_type >= 7 || m.adds.len() > 0 || m.alterations.len() > 0
}

/// The number of chords among the first `upto` that are more than a plain triad.
pub open spec fn extended_count(chords: Seq<ChordModel>, upto: int) -> nat
    decreases upto,
{
    if upto <= 0 || upto > chords.len() {
        0
    } else {
        extended_count(chords, upto - 1) + (if is_extended(chords[upto - 1]) {
            1nat
        } else {
            0nat
        })
    }
}

/// The sum of the complexities of the first `upto` chords.
pub open spec fn complexity_sum(chords: Seq<ChordModel>, upto: int) -> int
    decreases upto,
{
    if upto <= 0 || upto > chords.len() {
        0
    } else {
        complexity_sum(chords, upto - 1) + single_complexity(chords[upto - 1])
    }
}

/// The root that the key is taken to stand on after the first `upto`
/// chords: the first root, and from then on each root that lies more than
/// three away from the one before it in this sense.
pub open spec fn key_estimate(chords: Seq<ChordModel>, upto: int) -> int
    decreases upto,
{
    if upto <= 0 || upto > chords.len() {
        0
    } else if upto == 1 {
        chords[0].root as int
    } else if distance(chords[upto - 1].root as int, key_estimate(chords, upto - 1)) > 3 {
        chords[upto - 1].root as int
    } else {
        key_estimate(chords, upto - 1)
    }
}

/// The number of times among the first `upto` chords that a root lies more
/// than three away from the root that the key stands on.
pub open spec fn key_changes(chords: Seq<ChordModel>, upto: int) -> nat
    decreases upto,
{
    if upto <= 1 || upto > chords.len() {
        0
    } else {
        key_changes(chords, upto - 1) + (if distance(
            chords[upto - 1].root as int,
            key_estimate(chords, upto - 1),
        ) > 3 {
            1nat
        } else {
            0nat
        })
    }
}

/// What the step from one chord to the next adds to the complexity of the
/// voice leading: more for a wider step of the roots, and something for a
/// change of the chord type and of the inversion.
pub open spec fn step_complexity(from: ChordModel, to: ChordModel) -> int {
    let interval = root_interval(from.root, to.root);
    (if interval == 0 {
        100_000int
    } else if interval == 1 {
        400_000
    } else if interval == 2 {
        200_000
    } else if interval <= 4 {
        300_000
    } else if interval <= 6 {
        600_000
    } else {
        800_000
    }) + (if from.chord_type != to.chord_type {
        200_000int
    } else {
        0
    }) + distance(from.inversion as int, to.inversion as int) * 100_000
}

/// The sum over the steps that end within the first `upto` chords.
pub open spec fn steps_sum(chords: Seq<ChordModel>, upto: int) -> int
    decreases upto,
{
    if upto <= 1 || upto > chords.len() {
        0
    } else {
        steps_sum(chords, upto - 1) + step_complexity(chords[upto - 2], chords[upto - 1])
    }
}

/// The mean complexity of the steps, over the number of chords.
pub open spec fn voice_leading_complexity(chords: Seq<ChordModel>) -> int {
    steps_sum(chords, chords.len() as int) / greatest(chords.len() as int, 1)
}

/// Whether the step from one chord to the next is rare in a store: the
/// store has no match for the pair, or its best match was seen fewer than
/// five times.
pub open spec fn is_uncommon(tree: NodeModel, from: ChordModel, to: ChordModel) -> bool {
    let found = top(sorted_desc(walk(tree, seq![Some(encoded(from)), Some(encoded(to))], 0)), 1);
    found.len() == 0 || found[0].count < 5
}

/// The number of rare steps that end within the first `upto` chords.
pub open spec fn uncommon_count(tree: NodeModel, chords: Seq<ChordModel>, upto: int) -> nat
    decreases upto,
{
    if upto <= 1 || upto > chords.len() {
        0
    } else {
        uncommon_count(tree, chords, upto - 1) + (if is_uncommon(
            tree,
            chords[upto - 2],
            chords[upto - 1],
        ) {
            1nat
        } else {
            0nat
        })
    }
}

/// The binary forms of the chords among the first `upto` that have one, each once.
pub open spec fn distinct_keys(chords: Seq<ChordModel>, upto: int) -> Seq<Seq<u8>>
    decreases upto,
{
    if upto <= 0 || upto > chords.len() {
        Seq::empty()
    } else {
        let before = distinct_keys(chords, upto - 1);
        let m = chords[upto - 1];
        if encodable(m) && !before.contains(encoded(m)) {
            before.push(encoded(m))
        } else {
            before
        }
    }
}

/// Whether every chord that stands in a pair has a binary form: every chord
/// of a progression of two or more.
pub open spec fn pairs_encodable(chords: Seq<ChordModel>) -> bool {
    chords.len() >= 2 ==> forall|i: int| 0 <= i < chords.len() ==> encodable(#[trigger] chords[i])
}

/// What the complexities of a progression without tempo changes are worked
/// out from, in a store with the given tree.
pub open spec fn factors_of(tree: NodeModel, chords: Seq<ChordModel>) -> ComplexityFactors {
    let n = chords.len() as int;
    ComplexityFactors {
        unique_chords: distinct_keys(chords, n).len() as usize,
        avg_chord_complexity: Fixed { micros: (complexity_sum(chords, n) / greatest(n, 1)) as i64 },
        key_changes: key_changes(chords, n) as usize,
        uncommon_progressions: uncommon_count(tree, chords, n) as usize,
        time_signature_changes: 0,
        extended_harmonies: extended_count(chords, n) as usize,
        voice_leading_complexity: Fixed { micros: voice_leading_complexity(chords) as i64 },
        tempo_variations: Fixed { micros: 0 },
    }
}

/// The sums over the first `upto` chords stay within what their parts allow.
proof fn lemma_sums_bound(tree: NodeModel, chords: Seq<ChordModel>, upto: int)
    requires
        0 <= upto <= chords.len(),
    ensures
        0 <= complexity_sum(chords, upto) <= upto * SCORE_BOUND,
        upto >= 1 ==> complexity_sum(chords, upto) >= upto * 1_000_000,
        0 <= steps_sum(chords, upto) <= upto * 26_500_000,
        extended_count(chords, upto) <= upto,
        key_changes(chords, upto) <= upto,
        uncommon_count(tree, chords, upto) <= upto,
        distinct_keys(chords, upto).len() <= upto,
        0 <= key_estimate(chords, upto) <= 255,
    decreases upto,
{
    if upto > 0 {
        lemma_sums_bound(tree, chords, upto - 1);
        lemma_alterations_bound(
            chords[upto - 1].alterations,
            chords[upto - 1].alterations.len() as int,
        );
    }
}

/// Whether a key stands in a list of keys.
fn holds_key(keys: &Vec<ChordBinary>, key: &ChordBinary) -> (b: bool)
    ensures
        b == key_views(keys@).contains(key@),
{
    let mut i: usize = 0;
    while i < keys.len()
        invariant
            i <= keys@.len(),
            forall|j: int| 0 <= j < i ==> key_views(keys@)[j] != key@,
        decreases keys@.len() - i,
    {
        let other = &keys[i];
        if other[0] == key[0] && other[1] == key[1] && other[2] == key[2] && other[3] == key[3]
            && other[4] == key[4] {
            assert(other@ =~= key@);
            assert(key_views(keys@)[i as int] == key@);
            return true;
        }
        assert(key_views(keys@)[i as int] != key@);
        i = i + 1;
    }
    false
}

/// The keys of a list as values.
pub open spec fn key_views(keys: Seq<ChordBinary>) -> Seq<Seq<u8>> {
    Seq::new(keys.len(), |i: int| keys[i]@)
}

/// The number of different chords among those with a binary form.
fn count_unique_chords(progression: &[Chord]) -> (count: usize)
    ensures
        count == distinct_keys(chord_models(progression@), progression@.len() as int).len(),
{
    let ghost chords = chord_models(progression@);
    let mut seen: Vec<ChordBinary> = Vec::new();
    let mut i: usize = 0;
    assert(key_views(seen@) =~= distinct_keys(chords, 0));
    while i < progression.len()
        invariant
            i <= progression@.len(),
            chords == chord_models(progression@),
            key_views(seen@) == distinct_keys(chords, i as int),
        decreases progression@.len() - i,
    {
        let ghost before = key_views(seen@);
        match serialize_chord(&progression[i]) {
            Ok(key) => {
                if !holds_key(&seen, &key) {
                    seen.push(key);
                    assert(key_views(seen@) =~= before.push(key@));
                }
            },
            Err(_) => {},
        }
        i = i + 1;
    }
    seen.len()
}

/// The number of times a root leaps away from the key.
fn count_key_changes(progression: &[Chord]) -> (changes: usize)
    ensures
        changes == key_changes(chord_models(progression@), progression@.len() as int),
{
    let ghost chords = chord_models(progression@);
    if progression.len() == 0 {
        return 0;
    }
    let mut changes: usize = 0;
    let mut current: u8 = progression[0].root;
    let mut i: usize = 1;
    while i < progression.len()
        invariant
            1 <= i <= progression@.len(),
            chords == chord_models(progression@),
            current == key_estimate(chords, i as int),
            changes == key_changes(chords, i as int),
            changes <= i,
        decreases progression@.len() - i,
    {
        let root = progression[i].root;
        let apart: u8 = if root >= current {
            root - current
        } else {
            current - root
        };
        if apart > 3 {
            changes = changes + 1;
            current = root;
        }
        i = i + 1;
    }
    changes
}

/// The number of chords that are more than a plain triad.
fn count_extended(progression: &[Chord]) -> (count: usize)
    ensures
        count == extended_count(chord_models(progression@), progression@.len() as int),
{
    let ghost chords = chord_models(progression@);
    let mut count: usize = 0;
    let mut i: usize = 0;
    while i < progression.len()
        invariant
            i <= progression@.len(),
            chords == chord_models(progression@),
            count == extended_count(chords, i as int),
            count <= i,
        decreases progression@.len() - i,
    {
        let chord = &progression[i];
        if chord.chord_type >= 7 || chord.adds.len() > 0 || chord.alterations.len() > 0 {
            count = count + 1;
        }
        i = i + 1;
    }
    count
}

/// The mean complexity of the chords.
fn mean_chord_complexity(progression: &[Chord]) -> (mean: Fixed)
    requires
        progression@.len() > 0,
    ensures
        mean.micros == complexity_sum(chord_models(progression@), progression@.len() as int)
            / (progression@.len() as int),
        1_000_000 <= mean.micros <= SCORE_BOUND,
{
    let ghost chords = chord_models(progression@);
    let n = progression.len();
    let mut sum: i128 = 0;
    let mut i: usize = 0;
    while i < n
        invariant
            i <= n,
            n == progression@.len(),
            chords == chord_models(progression@),
            sum == complexity_sum(chords, i as int),
            i * 1_000_000 <= sum <= i * SCORE_BOUND,
        decreases n - i,
    {
        sum = sum + single_chord_complexity(&progression[i]).micros as i128;
        i = i + 1;
    }
    let mean = sum / (n as i128);
    assert(1_000_000 <= mean <= SCORE_BOUND) by (nonlinear_arith)
        requires
            n >= 1,
            n * 1_000_000 <= sum <= n * SCORE_BOUND,
            mean == sum / (n as i128),
    ;
    Fixed { micros: mean as i64 }
}

/// What the step from one chord to the next adds to the complexity of the
/// voice leading.
fn step_complexity_of(from: &Chord, to: &Chord) -> (c: i128)
    ensures
        c == step_complexity(from@, to@),
        0 <= c <= 26_500_000,
{
    let interval = calculate_root_interval(from.root, to.root);
    let by_interval: i128 = if interval == 0 {
        100_000
    } else if interval == 1 {
        400_000
    } else if interval == 2 {
        200_000
    } else if interval <= 4 {
        300_000
    } else if interval <= 6 {
        600_000
    } else {
        800_000
    };
    let by_type: i128 = if from.chord_type != to.chord_type {
        200_000
    } else {
        0
    };
    let turned: i128 = if from.inversion >= to.inversion {
        (from.inversion - to.inversion) as i128
    } else {
        (to.inversion - from.inversion) as i128
    };
    by_interval + by_type + turned * 100_000
}

/// The mean complexity of the steps from one chord to the next.
fn calculate_voice_leading_complexity(progression: &[Chord]) -> (mean: Fixed)
    ensures
        mean.micros == voice_leading_complexity(chord_models(progression@)),
        0 <= mean.micros <= 26_500_000,
{
    let ghost chords = chord_models(progression@);
    let n = progression.len();
    let mut sum: i128 = 0;
    let mut i: usize = 1;
    while i < n
        invariant
            1 <= i,
            i <= n || n == 0,
            n == progression@.len(),
            chords == chord_models(progression@),
            sum == steps_sum(chords, if n == 0 {
                0
            } else {
                i as int
            }),
            0 <= sum <= i * 26_500_000,
        decreases n - i,
    {
        sum = sum + step_complexity_of(&progression[i - 1], &progression[i]);
        i = i + 1;
    }
    let over: i128 = if n == 0 {
        1
    } else {
        n as i128
    };
    let mean = sum / over;
    assert(0 <= mean <= 26_500_000) by (nonlinear_arith)
        requires
            over >= 1,
            0 <= sum <= over * 26_500_000,
            mean == sum / over,
    ;
    Fixed { micros: mean as i64 }
}

/// The number of steps from one chord to the next that are rare in a store.
fn count_uncommon_progressions(trie: &ChordProgressionTrie, progression: &[Chord]) -> (r: AiResult<
    usize,
>)
    ensures
        r is Ok <==> pairs_encodable(chord_models(progression@)),
        r matches Ok(count) ==> count == uncommon_count(
            trie@.tree,
            chord_models(progression@),
            progression@.len() as int,
        ),
        r matches Err(e) ==> e is SuggestionFailed,
{
    let ghost chords = chord_models(progression@);
    let n = progression.len();
    let mut count: usize = 0;
    let mut i: usize = 1;
    while i < n
        invariant
            1 <= i,
            i <= n || n == 0,
            n == progression@.len(),
            chords == chord_models(progression@),
            i >= 2 ==> forall|k: int| 0 <= k < i && k < n ==> encodable(#[trigger] chords[k]),
            count == uncommon_count(trie@.tree, chords, if n == 0 {
                0
            } else {
                i as int
            }),
            count <= i,
        decreases n - i,
    {
        let mut pattern: Vec<Option<Chord>> = Vec::new();
        pattern.push(Some(progression[i - 1].clone()));
        pattern.push(Some(progression[i].clone()));
        assert(pattern@[0] matches Some(c) && c@ == chords[i - 1]);
        assert(pattern@[1] matches Some(c) && c@ == chords[i as int]);
        let found = match trie.search_with_wildcard(pattern.as_slice(), 1) {
            Ok(found) => found,
            Err(e) => {
                assert(!encodable(chords[i - 1]) || !encodable(chords[i as int]));
                return Err(e);
            },
        };
        assert(search_keys(pattern@) =~= seq![
            Some(encoded(chords[i - 1])),
            Some(encoded(chords[i as int])),
        ]);
        if found.len() == 0 || found[0].count < 5 {
            count = count + 1;
        }
        i = i + 1;
    }
    Ok(count)
}

/// What the complexities of a progression are worked out from.
fn calculate_complexity_factors(trie: &ChordProgressionTrie, progression: &[Chord]) -> (r: AiResult<
    ComplexityFactors,
>)
    requires
        progression@.len() > 0,
    ensures
        r is Ok <==> pairs_encodable(chord_models(progression@)),
        r matches Ok(factors) ==> factors == factors_of(trie@.tree, chord_models(progression@)),
        r matches Ok(factors) ==> 1_000_000 <= factors.avg_chord_complexity.micros <= SCORE_BOUND
            && 0 <= factors.voice_leading_complexity.micros <= 26_500_000,
        r matches Err(e) ==> e is SuggestionFailed,
{
    proof {
        lemma_sums_bound(trie@.tree, chord_models(progression@), progression@.len() as int);
    }
    let unique_chords = count_unique_chords(progression);
    let avg_chord_complexity = mean_chord_complexity(progression);
    let key_changes = count_key_changes(progression);
    let uncommon_progressions = match count_uncommon_progressions(trie, progression) {
        Ok(count) => count,
        Err(e) => {
            return Err(e);
        },
    };
    let extended_harmonies = count_extended(progression);
    let voice_leading_complexity = calculate_voice_leading_complexity(progression);
    Ok(
        ComplexityFactors {
            unique_chords,
            avg_chord_complexity,
            key_changes,
            uncommon_progressions,
            time_signature_changes: 0,
            extended_harmonies,
            voice_leading_complexity,
            tempo_variations: Fixed { micros: 0 },
        },
    )
}

/// The complexity of the harmony of `n` chords, up to 10: one, and more for
/// the share of different chords, for the mean complexity of the chords
/// above one, for each leap away from the key, for the share of chords that
/// are more than a plain triad, and for each rare step.
pub open spec fn harmonic_complexity(factors: ComplexityFactors, n: int) -> int {
    least(
        1_000_000 + factors.unique_chords * 1_000_000 / n + (factors.avg_chord_complexity.micros
            - 1_000_000) * 3 + factors.key_changes * 1_500_000 + factors.extended_harmonies
            * 3_500_000 / n + factors.uncommon_progressions * 200_000,
        10_000_000,
    )
}

/// The complexity of the rhythm, up to 10: two, and more for each change of
/// the time signature, for a varying tempo, and for each sixty beats a
/// minute above 140.
pub open spec fn rhythmic_complexity(factors: ComplexityFactors, tempo: Option<Fixed>) -> int {
    least(
        2_000_000 + factors.time_signature_changes * 1_000_000 + factors.tempo_variations.micros
            * 3 / 2 + (match tempo {
            Some(bpm) => if bpm.micros > 140_000_000 {
                (bpm.micros - 140_000_000) / 60
            } else {
                0
            },
            None => 0,
        }),
        10_000_000,
    )
}

/// The sum over the first `upto` chords of what each spans: one, a twelfth
/// of its type, and a fifth for each added tone, as far as a million goes.
pub open spec fn span_sum(chords: Seq<ChordModel>, upto: int) -> int
    decreases upto,
{
    if upto <= 0 || upto > chords.len() {
        0
    } else {
        span_sum(chords, upto - 1) + 1_000_000 + chords[upto - 1].chord_type * 1_000_000 / 12
            + least(chords[upto - 1].adds.len() as int * 200_000, 1_000_000_000_000)
    }
}

/// The complexity of the technique, up to 10: one, and more for the voice
/// leading, for the share of chords that are more than a plain triad, and
/// for what the chords span in the mean above one.
pub open spec fn technical_complexity(chords: Seq<ChordModel>, factors: ComplexityFactors) -> int {
    let n = chords.len() as int;
    least(
        1_000_000 + factors.voice_leading_complexity.micros * 2 + factors.extended_harmonies
            * 2_500_000 / n + (span_sum(chords, n) / n - 1_000_000),
        10_000_000,
    )
}

/// The lowest root among the first `upto` chords.
pub open spec fn lowest_root(chords: Seq<ChordModel>, upto: int) -> int
    decreases upto,
{
    if upto <= 0 || upto > chords.len() {
        255
    } else {
        least(lowest_root(chords, upto - 1), chords[upto - 1].root as int)
    }
}

/// The highest root among the first `upto` chords.
pub open spec fn highest_root(chords: Seq<ChordModel>, upto: int) -> int
    decreases upto,
{
    if upto <= 0 || upto > chords.len() {
        0
    } else {
        greatest(highest_root(chords, upto - 1), chords[upto - 1].root as int)
    }
}

/// How hard the step between two roots is to sing.
pub open spec fn interval_difficulty(interval: int) -> int {
    if interval == 0 {
        0
    } else if interval == 1 {
        200_000
    } else if interval == 2 {
        100_000
    } else if interval == 3 {
        200_000
    } else if interval == 4 {
        300_000
    } else if interval == 5 {
        400_000
    } else if interval == 6 {
        500_000
    } else if interval == 7 {
        400_000
    } else if interval <= 11 {
        600_000
    } else {
        700_000
    }
}

/// The sum of the difficulties of the steps that end within the first `upto` chords.
pub open spec fn intervals_sum(chords: Seq<ChordModel>, upto: int) -> int
    decreases upto,
{
    if upto <= 1 || upto > chords.len() {
        0
    } else {
        intervals_sum(chords, upto - 1) + interval_difficulty(
            root_interval(chords[upto - 2].root, chords[upto - 1].root),
        )
    }
}

/// The number of times, within the first `upto` chords, that the roots
/// rise after they did not, or do not after they rose.
pub open spec fn direction_changes(chords: Seq<ChordModel>, upto: int) -> nat
    decreases upto,
{
    if upto <= 2 || upto > chords.len() {
        0
    } else {
        direction_changes(chords, upto - 1) + (if (chords[upto - 1].root > chords[upto - 2].root)
            != (chords[upto - 2].root > chords[upto - 3].root) {
            1nat
        } else {
            0nat
        })
    }
}

/// The complexity of the melody of the roots, up to 10: one and a half, and
/// more for the range of the roots, for each step by its difficulty, for the
/// share of changes of direction, and for each chord.
pub open spec fn melodic_complexity(chords: Seq<ChordModel>) -> int {
    let n = chords.len() as int;
    least(
        1_500_000 + (highest_root(chords, n) - lowest_root(chords, n)) * 1_000_000 / 12
            + intervals_sum(chords, n) + direction_changes(chords, n) as int * 1_500_000 / n + n * 75_000,
        10_000_000,
    )
}

/// A weight of the model under its name.
#[derive(Debug, PartialEq, Eq)]
pub struct FeatureWeight {
    pub name: String,
    pub weight: Fixed,
}

/// The model that turns the four complexities into a difficulty.
#[derive(Debug, PartialEq, Eq)]
pub struct PolynomialModel {
    /// The coefficients of the polynomial, from the cube down to the constant.
    pub coefficients: [Fixed; 4],
    /// The weight of each complexity, by its name.
    pub feature_weights: Vec<FeatureWeight>,
    /// How often the model is right.
    pub accuracy: Fixed,
}

/// A model as a value.
pub struct ModelValues {
    pub coefficients: Seq<int>,
    pub weights: Seq<(Seq<char>, int)>,
    pub accuracy: int,
}

impl View for PolynomialModel {
    type V = ModelValues;

    open spec fn view(&self) -> ModelValues {
        ModelValues {
            coefficients: Seq::new(4, |i: int| self.coefficients@[i].micros as int),
            weights: Seq::new(
                self.feature_weights@.len(),
                |i: int| (self.feature_weights@[i].name@, self.feature_weights@[i].weight.micros as int),
            ),
            accuracy: self.accuracy.micros as int,
        }
    }
}

/// The weight that stands first under a name from `from` on, or the default.
pub open spec fn weight_named(weights: Seq<(Seq<char>, int)>, name: Seq<char>, default: int, from: int) -> int
    decreases weights.len() - from,
{
    if from < 0 || from >= weights.len() {
        default
    } else if weights[from].0 == name {
        weights[from].1
    } else {
        weight_named(weights, name, default, from + 1)
    }
}

/// A complexity as far as the bound for scores goes, either way.
pub open spec fn within_scores(x: int) -> int {
    clamp(x, -(SCORE_BOUND as int), SCORE_BOUND as int)
}

/// The weighted sum of the four complexities, each as far as the bound for
/// scores goes; a tenth of it, kept within a thousand either way.
pub open spec fn model_input(model: ModelValues, harmonic: int, rhythmic: int, technical: int, melodic: int) -> int {
    clamp(
        (within_scores(harmonic) * weight_named(model.weights, "harmonic_complexity"@, 350_000, 0)
            + within_scores(rhythmic) * weight_named(
            model.weights,
            "rhythmic_complexity"@,
            250_000,
            0,
        ) + within_scores(technical) * weight_named(
            model.weights,
            "technical_complexity"@,
            250_000,
            0,
        ) + within_scores(melodic) * weight_named(model.weights, "melodic_complexity"@, 150_000, 0))
            / 10_000_000,
        -1_000_000_000,
        1_000_000_000,
    )
}

/// The polynomial of the model at `x`.
pub open spec fn polynomial(model: ModelValues, x: int) -> int {
    let square = x * x / 1_000_000;
    let cube = square * x / 1_000_000;
    (model.coefficients[0] * cube + model.coefficients[1] * square + model.coefficients[2] * x)
        / 1_000_000 + model.coefficients[3]
}

/// The difficulty, from 0 to 10: ten times the polynomial at the weighted
/// sum of the complexities.
pub open spec fn difficulty(model: ModelValues, harmonic: int, rhythmic: int, technical: int, melodic: int) -> int {
    clamp(
        polynomial(model, model_input(model, harmonic, rhythmic, technical, melodic)) * 10,
        0,
        10_000_000,
    )
}

/// The level of skill for a difficulty.
pub open spec fn skill_for(score: int) -> SkillLevel {
    if score < 2_500_000 {
        SkillLevel::Beginner
    } else if score < 5_000_000 {
        SkillLevel::Intermediate
    } else if score < 7_500_000 {
        SkillLevel::Advanced
    } else {
        SkillLevel::Expert
    }
}

/// How far an assessment of `n` chords can be trusted: the accuracy of the
/// model, less a fifth for fewer than four chords, less a tenth where more
/// than half of the steps are rare; from 0 to 1.
pub open spec fn assessment_confidence(accuracy: int, n: int, uncommon: int) -> int {
    let short = if n < 4 {
        accuracy * 800_000 / 1_000_000
    } else {
        accuracy
    };
    let rare = if uncommon > n / 2 {
        short * 900_000 / 1_000_000
    } else {
        short
    };
    clamp(rare, 0, 1_000_000)
}

/// The assessment of a progression in a store with the given tree.
pub open spec fn assessment_of(
    model: ModelValues,
    tree: NodeModel,
    chords: Seq<ChordModel>,
    tempo: Option<Fixed>,
) -> DifficultyAssessment {
    let n = chords.len() as int;
    let factors = factors_of(tree, chords);
    let harmonic = harmonic_complexity(factors, n);
    let rhythmic = rhythmic_complexity(factors, tempo);
    let technical = technical_complexity(chords, factors);
    let melodic = melodic_complexity(chords);
    let overall = difficulty(model, harmonic, rhythmic, technical, melodic);
    DifficultyAssessment {
        overall_score: Fixed { micros: overall as i64 },
        harmonic_complexity: Fixed { micros: harmonic as i64 },
        rhythmic_complexity: Fixed { micros: rhythmic as i64 },
        technical_complexity: Fixed { micros: technical as i64 },
        melodic_complexity: Fixed { micros: melodic as i64 },
        factors,
        confidence: Fixed {
            micros: assessment_confidence(
                model.accuracy,
                n,
                factors.uncommon_progressions as int,
            ) as i64,
        },
        skill_level: skill_for(overall),
    }
}

/// The lesser of a number and ten.
fn up_to_ten(x: i128) -> (r: i64)
    requires
        -9_000_000_000_000_000_000 <= x,
    ensures
        r == least(x as int, 10_000_000),
{
    if x > 10_000_000 {
        10_000_000
    } else {
        x as i64
    }
}

/// The complexity of the harmony.
fn calculate_harmonic_complexity(factors: &ComplexityFactors, n: usize) -> (c: Fixed)
    requires
        n > 0,
        1_000_000 <= factors.avg_chord_complexity.micros <= SCORE_BOUND,
    ensures
        c.micros == harmonic_complexity(*factors, n as int),
        1_000_000 <= c.micros <= 10_000_000,
{
    let over = n as i128;
    let shared: i128 = factors.unique_chords as i128 * 1_000_000 / over;
    let extended: i128 = factors.extended_harmonies as i128 * 3_500_000 / over;
    let total: i128 = 1_000_000 + shared + (factors.avg_chord_complexity.micros as i128 - 1_000_000)
        * 3 + factors.key_changes as i128 * 1_500_000 + extended
        + factors.uncommon_progressions as i128 * 200_000;
    Fixed { micros: up_to_ten(total) }
}

/// The complexity of the rhythm.
fn calculate_rhythmic_complexity(factors: &ComplexityFactors, tempo_bpm: Option<Fixed>) -> (c: Fixed)
    requires
        factors.tempo_variations.micros == 0,
    ensures
        c.micros == rhythmic_complexity(*factors, tempo_bpm),
        2_000_000 <= c.micros <= 10_000_000,
{
    let fast: i128 = match tempo_bpm {
        Some(bpm) => if bpm.micros > 140_000_000 {
            (bpm.micros as i128 - 140_000_000) / 60
        } else {
            0
        },
        None => 0,
    };
    let total: i128 = 2_000_000 + factors.time_signature_changes as i128 * 1_000_000 + fast;
    Fixed { micros: up_to_ten(total) }
}

/// The complexity of the technique.
fn calculate_technical_complexity(progression: &[Chord], factors: &ComplexityFactors) -> (c: Fixed)
    requires
        progression@.len() > 0,
        0 <= factors.voice_leading_complexity.micros <= SCORE_BOUND,
    ensures
        c.micros == technical_complexity(chord_models(progression@), *factors),
        1_000_000 <= c.micros <= 10_000_000,
{
    let ghost chords = chord_models(progression@);
    let n = progression.len();
    let mut spans: i128 = 0;
    let mut i: usize = 0;
    while i < n
        invariant
            i <= n,
            n == progression@.len(),
            chords == chord_models(progression@),
            spans == span_sum(chords, i as int),
            i * 1_000_000 <= spans <= i * 2_000_000_000_000,
        decreases n - i,
    {
        let chord = &progression[i];
        spans = spans + 1_000_000 + chord.chord_type as i128 * 1_000_000 / 12 + capped_times(
            chord.adds.len(),
            200_000,
            1_000_000_000_000,
        );
        i = i + 1;
    }
    let over = n as i128;
    let mean = spans / over;
    assert(1_000_000 <= mean <= 2_000_000_000_000) by (nonlinear_arith)
        requires
            over >= 1,
            over * 1_000_000 <= spans <= over * 2_000_000_000_000,
            mean == spans / over,
    ;
    let extended: i128 = factors.extended_harmonies as i128 * 2_500_000 / over;
    let total: i128 = 1_000_000 + factors.voice_leading_complexity.micros as i128 * 2 + extended + (
    mean - 1_000_000);
    Fixed { micros: up_to_ten(total) }
}

/// How hard the step between two roots is to sing.
fn interval_difficulty_of(interval: u8) -> (d: i128)
    ensures
        d == interval_difficulty(interval as int),
        0 <= d <= 700_000,
{
    if interval == 0 {
        0
    } else if interval == 1 {
        200_000
    } else if interval == 2 {
        100_000
    } else if interval == 3 {
        200_000
    } else if interval == 4 {
        300_000
    } else if interval == 5 {
        400_000
    } else if interval == 6 {
        500_000
    } else if interval == 7 {
        400_000
    } else if interval <= 11 {
        600_000
    } else {
        700_000
    }
}

/// The complexity of the melody of the roots.
fn calculate_melodic_complexity(progression: &[Chord]) -> (c: Fixed)
    requires
        progression@.len() > 0,
    ensures
        c.micros == melodic_complexity(chord_models(progression@)),
        1_500_000 <= c.micros <= 10_000_000,
{
    let ghost chords = chord_models(progression@);
    let n = progression.len();
    let mut lowest: u8 = 255;
    let mut highest: u8 = 0;
    let mut steps: i128 = 0;
    let mut turns: usize = 0;
    let mut i: usize = 0;
    while i < n
        invariant
            i <= n,
            n == progression@.len(),
            chords == chord_models(progression@),
            lowest == lowest_root(chords, i as int),
            highest == highest_root(chords, i as int),
            i > 0 ==> lowest <= highest,
            steps == intervals_sum(chords, i as int),
            0 <= steps <= i * 700_000,
            turns == direction_changes(chords, i as int),
            turns <= i,
        decreases n - i,
    {
        let root = progression[i].root;
        if root < lowest {
            lowest = root;
        }
        if root > highest {
            highest = root;
        }
        if i >= 1 {
            let before = progression[i - 1].root;
            steps = steps + interval_difficulty_of(calculate_root_interval(before, root));
            if i >= 2 {
                let first = progression[i - 2].root;
                if (root > before) != (before > first) {
                    turns = turns + 1;
                }
            }
        }
        i = i + 1;
    }
    let over = n as i128;
    let total: i128 = 1_500_000 + (highest - lowest) as i128 * 1_000_000 / 12 + steps
        + turns as i128 * 1_500_000 / over + over * 75_000;
    Fixed { micros: up_to_ten(total) }
}

/// The level of skill for a difficulty.
fn classify_skill_level(score: Fixed) -> (level: SkillLevel)
    ensures
        level == skill_for(score.micros as int),
{
    if score.micros < 2_500_000 {
        SkillLevel::Beginner
    } else if score.micros < 5_000_000 {
        SkillLevel::Intermediate
    } else if score.micros < 7_500_000 {
        SkillLevel::Advanced
    } else {
        SkillLevel::Expert
    }
}

impl PolynomialModel {
    /// The weight that stands first under a name, or the default.
    pub fn weight(&self, name: &str, default: Fixed) -> (w: Fixed)
        ensures
            w.micros == weight_named(self@.weights, name@, default.micros as int, 0),
    {
        let mut i: usize = 0;
        while i < self.feature_weights.len()
            invariant
                i <= self.feature_weights@.len(),
                weight_named(self@.weights, name@, default.micros as int, 0) == weight_named(
                    self@.weights,
                    name@,
                    default.micros as int,
                    i as int,
                ),
            decreases self.feature_weights@.len() - i,
        {
            if text_eq(self.feature_weights[i].name.as_str(), name) {
                return self.feature_weights[i].weight;
            }
            i = i + 1;
        }
        default
    }

    /// The difficulty for four complexities.
    pub fn apply(&self, harmonic: Fixed, rhythmic: Fixed, technical: Fixed, melodic: Fixed) -> (score:
        Fixed)
        ensures
            score.micros == difficulty(
                self@,
                harmonic.micros as int,
                rhythmic.micros as int,
                technical.micros as int,
                melodic.micros as int,
            ),
            0 <= score.micros <= 10_000_000,
    {
        let wh = self.weight("harmonic_complexity", Fixed { micros: 350_000 }).micros as i128;
        let wr = self.weight("rhythmic_complexity", Fixed { micros: 250_000 }).micros as i128;
        let wt = self.weight("technical_complexity", Fixed { micros: 250_000 }).micros as i128;
        let wm = self.weight("melodic_complexity", Fixed { micros: 150_000 }).micros as i128;
        let h = clamp_to(harmonic.micros as i128, -SCORE_BOUND, SCORE_BOUND) as i128;
        let r = clamp_to(rhythmic.micros as i128, -SCORE_BOUND, SCORE_BOUND) as i128;
        let t = clamp_to(technical.micros as i128, -SCORE_BOUND, SCORE_BOUND) as i128;
        let m = clamp_to(melodic.micros as i128, -SCORE_BOUND, SCORE_BOUND) as i128;
        assert(-100_000_000_000_000_000_000_000_000_000_000_000 <= h * wh
            <= 100_000_000_000_000_000_000_000_000_000_000_000
            && -100_000_000_000_000_000_000_000_000_000_000_000 <= r * wr
            <= 100_000_000_000_000_000_000_000_000_000_000_000
            && -100_000_000_000_000_000_000_000_000_000_000_000 <= t * wt
            <= 100_000_000_000_000_000_000_000_000_000_000_000
            && -100_000_000_000_000_000_000_000_000_000_000_000 <= m * wm
            <= 100_000_000_000_000_000_000_000_000_000_000_000) by (nonlinear_arith)
            requires
                -9_000_000_000_000_000 <= h <= 9_000_000_000_000_000,
                -9_000_000_000_000_000 <= r <= 9_000_000_000_000_000,
                -9_000_000_000_000_000 <= t <= 9_000_000_000_000_000,
                -9_000_000_000_000_000 <= m <= 9_000_000_000_000_000,
                -10_000_000_000_000_000_000 <= wh <= 10_000_000_000_000_000_000,
                -10_000_000_000_000_000_000 <= wr <= 10_000_000_000_000_000_000,
                -10_000_000_000_000_000_000 <= wt <= 10_000_000_000_000_000_000,
                -10_000_000_000_000_000_000 <= wm <= 10_000_000_000_000_000_000,
        ;
        let weighted = floor_div(h * wh + r * wr + t * wt + m * wm, 10_000_000);
        let x: i128 = if weighted < -1_000_000_000 {
            -1_000_000_000
        } else if weighted > 1_000_000_000 {
            1_000_000_000
        } else {
            weighted
        };
        assert(0 <= x * x <= 1_000_000_000_000_000_000) by (nonlinear_arith)
            requires
                -1_000_000_000 <= x <= 1_000_000_000,
        ;
        let square = floor_div(x * x, 1_000_000);
        assert(-1_000_000_000_000_000_000_000 <= square * x <= 1_000_000_000_000_000_000_000)
            by (nonlinear_arith)
            requires
                -1_000_000_000 <= x <= 1_000_000_000,
                0 <= square <= 1_000_000_000_000,
        ;
        let cube = floor_div(square * x, 1_000_000);
        let a = self.coefficients[0].micros as i128;
        let b = self.coefficients[1].micros as i128;
        let c = self.coefficients[2].micros as i128;
        let d = self.coefficients[3].micros as i128;
        assert(-10_000_000_000_000_000_000_000_000_000_000_000_000 <= a * cube
            <= 10_000_000_000_000_000_000_000_000_000_000_000_000
            && -10_000_000_000_000_000_000_000_000_000_000_000_000 <= b * square
            <= 10_000_000_000_000_000_000_000_000_000_000_000_000
            && -10_000_000_000_000_000_000_000_000_000_000_000_000 <= c * x
            <= 10_000_000_000_000_000_000_000_000_000_000_000_000) by (nonlinear_arith)
            requires
                -10_000_000_000_000_000_000 <= a <= 10_000_000_000_000_000_000,
                -10_000_000_000_000_000_000 <= b <= 10_000_000_000_000_000_000,
                -10_000_000_000_000_000_000 <= c <= 10_000_000_000_000_000_000,
                -1_000_000_000_000_000 <= cube <= 1_000_000_000_000_000,
                0 <= square <= 1_000_000_000_000,
                -1_000_000_000 <= x <= 1_000_000_000,
        ;
        let value = floor_div(a * cube + b * square + c * x, 1_000_000) + d;
        Fixed { micros: clamp_to(value * 10, 0, 10_000_000) }
    }
}

/// How far an assessment can be trusted.
fn calculate_analysis_confidence(accuracy: Fixed, n: usize, uncommon: usize) -> (c: Fixed)
    ensures
        c.micros == assessment_confidence(accuracy.micros as int, n as int, uncommon as int),
        0 <= c.micros <= 1_000_000,
{
    let full = accuracy.micros as i128;
    let short: i128 = if n < 4 {
        floor_div(full * 800_000, 1_000_000)
    } else {
        full
    };
    let rare: i128 = if uncommon > n / 2 {
        floor_div(short * 900_000, 1_000_000)
    } else {
        short
    };
    Fixed { micros: clamp_to(rare, 0, 1_000_000) }
}

/// The assessment of a progression.
pub fn assess(
    model: &PolynomialModel,
    trie: &ChordProgressionTrie,
    progression: &[Chord],
    tempo_bpm: Option<Fixed>,
) -> (r: AiResult<DifficultyAssessment>)
    requires
        progression@.len() > 0,
    ensures
        r is Ok <==> pairs_encodable(chord_models(progression@)),
        r matches Ok(found) ==> found == assessment_of(
            model@,
            trie@.tree,
            chord_models(progression@),
            tempo_bpm,
        ),
        r matches Err(e) ==> e is SuggestionFailed,
{
    let factors = match calculate_complexity_factors(trie, progression) {
        Ok(factors) => factors,
        Err(e) => {
            return Err(e);
        },
    };
    proof {
        lemma_sums_bound(trie@.tree, chord_models(progression@), progression@.len() as int);
    }
    let harmonic = calculate_harmonic_complexity(&factors, progression.len());
    let rhythmic = calculate_rhythmic_complexity(&factors, tempo_bpm);
    let technical = calculate_technical_complexity(progression, &factors);
    let melodic = calculate_melodic_complexity(progression);
    let overall = model.apply(harmonic, rhythmic, technical, melodic);
    Ok(
        DifficultyAssessment {
            overall_score: overall,
            harmonic_complexity: harmonic,
            rhythmic_complexity: rhythmic,
            technical_complexity: technical,
            melodic_complexity: melodic,
            factors,
            confidence: calculate_analysis_confidence(
                model.accuracy,
                progression.len(),
                factors.uncommon_progressions,
            ),
            skill_level: classify_skill_level(overall),
        },
    )
}

/// The counts of a chord by which two requests are told apart: its root,
/// type, inversion and applied degree, and the numbers of its added tones,
/// alterations and suspensions, with colons between them.
pub open spec fn descriptor(m: ChordModel) -> Seq<char> {
    decimal_digits(m.root as nat) + ":"@ + decimal_digits(m.chord_type as nat) + ":"@
        + decimal_digits(m.inversion as nat) + ":"@ + decimal_digits(m.applied as nat) + ":"@
        + decimal_digits(m.adds.len()) + ":"@ + decimal_digits(m.alterations.len()) + ":"@
        + decimal_digits(m.suspensions.len())
}

/// The descriptors of the first `upto` chords, with commas between them.
pub open spec fn descriptors(chords: Seq<ChordModel>, upto: int) -> Seq<char>
    decreases upto,
{
    if upto <= 0 || upto > chords.len() {
        Seq::empty()
    } else if upto == 1 {
        descriptor(chords[0])
    } else {
        descriptors(chords, upto - 1) + ","@ + descriptor(chords[upto - 1])
    }
}

/// A tempo in tenths of a beat a minute, rounded to the nearest; 120 where
/// none is given.
pub open spec fn tempo_tenths(tempo: Option<Fixed>) -> int {
    match tempo {
        Some(bpm) => (bpm.micros + 50_000) / 100_000,
        None => 1_200,
    }
}

/// A tempo with one digit behind the point.
pub open spec fn tempo_text(tempo: Option<Fixed>) -> Seq<char> {
    let tenths = tempo_tenths(tempo);
    if tenths >= 0 {
        decimal_digits((tenths / 10) as nat) + "."@ + decimal_digits((tenths % 10) as nat)
    } else {
        "-"@ + decimal_digits(((-tenths) / 10) as nat) + "."@ + decimal_digits(
            ((-tenths) % 10) as nat,
        )
    }
}

/// A time signature as a pair in parentheses; four four where none is given.
pub open spec fn signature_text(time_signature: Option<(u8, u8)>) -> Seq<char> {
    match time_signature {
        Some(pair) => "("@ + decimal_digits(pair.0 as nat) + ", "@ + decimal_digits(pair.1 as nat)
            + ")"@,
        None => "("@ + decimal_digits(4) + ", "@ + decimal_digits(4) + ")"@,
    }
}

/// The key under which the assessment of a request is remembered.
pub open spec fn difficulty_key(
    chords: Seq<ChordModel>,
    tempo: Option<Fixed>,
    time_signature: Option<(u8, u8)>,
) -> Seq<char> {
    "diff_["@ + descriptors(chords, chords.len() as int) + "]_"@ + tempo_text(tempo) + "_"@
        + signature_text(time_signature)
}

/// Appends a number in decimal.
fn append_number(text: &mut String, n: u64)
    ensures
        final(text)@ == old(text)@ + decimal_digits(n as nat),
{
    text.append(decimal_text(n).as_str());
}

/// Appends the descriptor of a chord.
fn append_descriptor(text: &mut String, chord: &Chord)
    ensures
        final(text)@ == old(text)@ + descriptor(chord@),
{
    let ghost before = text@;
    append_number(text, chord.root as u64);
    text.append(":");
    append_number(text, chord.chord_type as u64);
    text.append(":");
    append_number(text, chord.inversion as u64);
    text.append(":");
    append_number(text, chord.applied as u64);
    text.append(":");
    append_number(text, chord.adds.len() as u64);
    text.append(":");
    append_number(text, chord.alterations.len() as u64);
    text.append(":");
    append_number(text, chord.suspensions.len() as u64);
    assert(text@ =~= before + descriptor(chord@));
}

/// The key under which the assessment of a request is remembered.
pub fn generate_difficulty_cache_key(
    progression: &[Chord],
    tempo_bpm: Option<Fixed>,
    time_signature: Option<(u8, u8)>,
) -> (key: String)
    ensures
        key@ == difficulty_key(chord_models(progression@), tempo_bpm, time_signature),
{
    let ghost chords = chord_models(progression@);
    let mut key = String::from_str("diff_[");
    let mut i: usize = 0;
    assert(key@ =~= "diff_["@ + descriptors(chords, 0));
    while i < progression.len()
        invariant
            i <= progression@.len(),
            chords == chord_models(progression@),
            key@ == "diff_["@ + descriptors(chords, i as int),
        decreases progression@.len() - i,
    {
        if i > 0 {
            key.append(",");
        }
        append_descriptor(&mut key, &progression[i]);
        i = i + 1;
        assert(key@ =~= "diff_["@ + descriptors(chords, i as int));
    }
    key.append("]_");
    let ghost head = key@;
    let tenths: i128 = match tempo_bpm {
        Some(bpm) => floor_div(bpm.micros as i128 + 50_000, 100_000),
        None => 1_200,
    };
    if tenths >= 0 {
        append_number(&mut key, (tenths / 10) as u64);
        key.append(".");
        append_number(&mut key, (tenths % 10) as u64);
    } else {
        key.append("-");
        append_number(&mut key, ((-tenths) / 10) as u64);
        key.append(".");
        append_number(&mut key, ((-tenths) % 10) as u64);
    }
    assert(key@ =~= head + tempo_text(tempo_bpm));
    key.append("_");
    let ghost middle = key@;
    let (beats, unit) = match time_signature {
        Some(pair) => pair,
        None => (4, 4),
    };
    key.append("(");
    append_number(&mut key, beats as u64);
    key.append(", ");
    append_number(&mut key, unit as u64);
    key.append(")");
    assert(key@ =~= middle + signature_text(time_signature));
    key
}

/// The cache of assessments, a `dashmap::DashMap`.
pub type AnalysisCache = DashMap<String, DifficultyAssessment>;

/// The assessments of an empty cache.
pub open spec fn no_assessments() -> Map<Seq<char>, DifficultyAssessment> {
    Map::empty()
}

/// What a cache of assessments holds: the assessment remembered under each key.
pub uninterp spec fn analysis_entries(c: AnalysisCache) -> Map<Seq<char>, DifficultyAssessment>;

/// `DashMap::new`: the new map holds nothing.
#[verifier::external_body]
fn analysis_new() -> (c: AnalysisCache)
    ensures
        analysis_entries(c) == no_assessments(),
{
    DashMap::new()
}

/// `DashMap::get`, with a copy of the value found: there is a value exactly
/// for the keys of the map, and it is the value remembered under the key.
#[verifier::external_body]
fn analysis_get(c: &AnalysisCache, key: &str) -> (r: Option<DifficultyAssessment>)
    ensures
        r is Some <==> analysis_entries(*c).dom().contains(key@),
        r matches Some(found) ==> found == analysis_entries(*c)[key@],
{
    match c.get(key) {
        Some(found) => Some(*found.value()),
        None => None,
    }
}

/// `DashMap::insert`: the value is remembered under the key, in place of
/// what was remembered under it before; nothing else changes.
#[verifier::external_body]
fn analysis_insert(c: &mut AnalysisCache, key: String, value: DifficultyAssessment)
    ensures
        analysis_entries(*final(c)) == analysis_entries(*old(c)).insert(key@, value),
{
    c.insert(key, value);
}

/// `DashMap::clear`: the map holds nothing afterwards.
#[verifier::external_body]
fn analysis_clear(c: &mut AnalysisCache)
    ensures
        analysis_entries(*final(c)) == no_assessments(),
{
    c.clear();
}

/// `DashMap::len`: the number of keys of the map.
#[verifier::external_body]
fn analysis_len(c: &AnalysisCache) -> (count: usize)
    ensures
        count == analysis_entries(*c).dom().len(),
{
    c.len()
}

/// `DashMap::capacity`: how many entries the map has room for.
#[verifier::external_body]
fn analysis_capacity(c: &AnalysisCache) -> (n: usize) {
    c.capacity()
}

/// The model with which an analyzer starts: the weights .35, .25, .25 and
/// .15, the polynomial .1 x^3 + .2 x^2 + .8 x + .2, and an accuracy of .85.
pub open spec fn default_model() -> ModelValues {
    ModelValues {
        coefficients: seq![100_000int, 200_000int, 800_000int, 200_000int],
        weights: seq![
            ("harmonic_complexity"@, 350_000int),
            ("rhythmic_complexity"@, 250_000int),
            ("technical_complexity"@, 250_000int),
            ("melodic_complexity"@, 150_000int),
        ],
        accuracy: 850_000,
    }
}

impl Default for PolynomialModel {
    fn default() -> (model: Self)
        ensures
            model@ == default_model(),
    {
        let mut feature_weights: Vec<FeatureWeight> = Vec::new();
        feature_weights.push(
            FeatureWeight {
                name: String::from_str("harmonic_complexity"),
                weight: Fixed { micros: 350_000 },
            },
        );
        feature_weights.push(
            FeatureWeight {
                name: String::from_str("rhythmic_complexity"),
                weight: Fixed { micros: 250_000 },
            },
        );
        feature_weights.push(
            FeatureWeight {
                name: String::from_str("technical_complexity"),
                weight: Fixed { micros: 250_000 },
            },
        );
        feature_weights.push(
            FeatureWeight {
                name: String::from_str("melodic_complexity"),
                weight: Fixed { micros: 150_000 },
            },
        );
        let model = PolynomialModel {
            coefficients: [
                Fixed { micros: 100_000 },
                Fixed { micros: 200_000 },
                Fixed { micros: 800_000 },
                Fixed { micros: 200_000 },
            ],
            feature_weights,
            accuracy: Fixed { micros: 850_000 },
        };
        assert(model@.coefficients =~= default_model().coefficients);
        assert(model@.weights =~= default_model().weights);
        model
    }
}

/// The analyzer, with its memory of earlier assessments.
pub struct MusicalAnalyzer {
    analysis_cache: AnalysisCache,
    difficulty_model: PolynomialModel,
}

/// What a request for an assessment is answered with, and what is
/// remembered afterwards. An empty progression is refused as a failed
/// analysis. An assessment that is remembered under the key of the request
/// is returned as it is. Otherwise the request is refused as a failed
/// suggestion where the progression has two or more chords and one of them
/// has no binary form; else the assessment is worked out, remembered and
/// returned.
pub open spec fn answers_assessment(
    r: AiResult<DifficultyAssessment>,
    before: Map<Seq<char>, DifficultyAssessment>,
    after: Map<Seq<char>, DifficultyAssessment>,
    model: ModelValues,
    tree: NodeModel,
    chords: Seq<ChordModel>,
    tempo: Option<Fixed>,
    time_signature: Option<(u8, u8)>,
) -> bool {
    let key = difficulty_key(chords, tempo, time_signature);
    if chords.len() == 0 {
        r matches Err(e) && e is AnalysisFailed && after == before
    } else if before.dom().contains(key) {
        r == Ok::<DifficultyAssessment, AiError>(before[key]) && after == before
    } else if !pairs_encodable(chords) {
        r matches Err(e) && e is SuggestionFailed && after == before
    } else {
        r == Ok::<DifficultyAssessment, AiError>(assessment_of(model, tree, chords, tempo))
            && after == before.insert(key, assessment_of(model, tree, chords, tempo))
    }
}

impl MusicalAnalyzer {
    /// The assessments that the analyzer remembers, by key.
    pub closed spec fn remembered(&self) -> Map<Seq<char>, DifficultyAssessment> {
        analysis_entries(self.analysis_cache)
    }

    /// The model of the analyzer.
    pub closed spec fn model(&self) -> ModelValues {
        self.difficulty_model@
    }

    /// An analyzer that remembers nothing, with the model it starts with.
    pub fn new() -> (a: Self)
        ensures
            a.remembered() == no_assessments(),
            a.model() == default_model(),
    {
        MusicalAnalyzer {
            analysis_cache: analysis_new(),
            difficulty_model: PolynomialModel::default(),
        }
    }

    /// How hard a progression is, in a store of patterns. The assessment is
    /// remembered under the key of the request.
    pub fn assess_difficulty(
        &mut self,
        trie: &ChordProgressionTrie,
        progression: &[Chord],
        tempo_bpm: Option<Fixed>,
        time_signature: Option<(u8, u8)>,
    ) -> (r: AiResult<DifficultyAssessment>)
        ensures
            final(self).model() == old(self).model(),
            answers_assessment(
                r,
                old(self).remembered(),
                final(self).remembered(),
                old(self).model(),
                trie@.tree,
                chord_models(progression@),
                tempo_bpm,
                time_signature,
            ),
    {
        if progression.len() == 0 {
            return Err(
                AiError::AnalysisFailed {
                    reason: String::from_str("Cannot analyze empty progression"),
                },
            );
        }
        let key = generate_difficulty_cache_key(progression, tempo_bpm, time_signature);
        match analysis_get(&self.analysis_cache, key.as_str()) {
            Some(found) => {
                return Ok(found);
            },
            None => {},
        }
        let assessment = match assess(&self.difficulty_model, trie, progression, tempo_bpm) {
            Ok(assessment) => assessment,
            Err(e) => {
                return Err(e);
            },
        };
        analysis_insert(&mut self.analysis_cache, key, assessment);
        Ok(assessment)
    }

    /// The complexity of a chord.
    pub fn calculate_single_chord_complexity(&self, chord: &Chord) -> (c: Fixed)
        ensures
            c.micros == single_complexity(chord@),
    {
        single_chord_complexity(chord)
    }

    /// Forgets every assessment.
    pub fn clear_cache(&mut self)
        ensures
            final(self).remembered() == no_assessments(),
            final(self).model() == old(self).model(),
    {
        analysis_clear(&mut self.analysis_cache);
    }

    /// The number of assessments remembered, and the room that the cache has.
    pub fn cache_stats(&self) -> (stats: (usize, usize))
        ensures
            stats.0 == self.remembered().dom().len(),
    {
        (analysis_len(&self.analysis_cache), analysis_capacity(&self.analysis_cache))
    }
}

/// The number of chords among the first `upto` that stand on a root.
pub open spec fn root_count(chords: Seq<ChordModel>, root: u8, upto: int) -> nat
    decreases upto,
{
    if upto <= 0 || upto > chords.len() {
        0
    } else {
        root_count(chords, root, upto - 1) + (if chords[upto - 1].root == root {
            1nat
        } else {
            0nat
        })
    }
}

/// The root that most chords stand on; of several such, the one that comes
/// first among the first `upto` chords.
pub open spec fn leading_root(chords: Seq<ChordModel>, upto: int) -> u8
    decreases upto,
{
    if upto <= 1 || upto > chords.len() {
        if chords.len() > 0 {
            chords[0].root
        } else {
            0
        }
    } else {
        let before = leading_root(chords, upto - 1);
        if root_count(chords, chords[upto - 1].root, chords.len() as int) > root_count(
            chords,
            before,
            chords.len() as int,
        ) {
            chords[upto - 1].root
        } else {
            before
        }
    }
}

/// The key of a progression: the major key on the root that most chords
/// stand on, trusted by the share of those chords.
pub open spec fn key_center_of(chords: Seq<ChordModel>) -> KeyCenter {
    let n = chords.len() as int;
    let root = leading_root(chords, n);
    KeyCenter {
        root,
        mode: Mode::Major,
        confidence: Fixed { micros: (root_count(chords, root, n) as int * 1_000_000 / n) as i64 },
        chord_range: (0, chords.len() as usize),
    }
}

/// A known pattern as a value.
pub struct PatternModel {
    pub name: Seq<char>,
    pub location: (usize, usize),
    pub popularity: int,
    pub chords: Seq<ChordModel>,
}

impl View for CommonPattern {
    type V = PatternModel;

    open spec fn view(&self) -> PatternModel {
        PatternModel {
            name: self.name@,
            location: self.location,
            popularity: self.popularity.micros as int,
            chords: chord_models(self.chords@),
        }
    }
}

/// The patterns of a list as values.
pub open spec fn pattern_models(patterns: Seq<CommonPattern>) -> Seq<PatternModel> {
    Seq::new(patterns.len(), |i: int| patterns[i]@)
}

/// The pattern of four chords that begins at `i`.
pub open spec fn pattern_at(chords: Seq<ChordModel>, i: int) -> PatternModel {
    PatternModel {
        name: "Common 4-chord pattern"@,
        location: (i as usize, (i + 4) as usize),
        popularity: 700_000,
        chords: chords.subrange(i, i + 4),
    }
}

/// The patterns that begin at the first `upto` places: every four chords in a row.
pub open spec fn patterns_of(chords: Seq<ChordModel>, upto: int) -> Seq<PatternModel> {
    Seq::new(upto as nat, |i: int| pattern_at(chords, i))
}

/// The number of smooth steps that end within the first `upto` chords:
/// those whose roots lie no more than two apart.
pub open spec fn smooth_steps(chords: Seq<ChordModel>, upto: int) -> nat
    decreases upto,
{
    if upto <= 1 || upto > chords.len() {
        0
    } else {
        smooth_steps(chords, upto - 1) + (if root_interval(
            chords[upto - 2].root,
            chords[upto - 1].root,
        ) <= 2 {
            1nat
        } else {
            0nat
        })
    }
}

/// The quality of the voice leading, up to 1: a half, and a tenth for each
/// smooth step.
pub open spec fn voice_leading_quality(chords: Seq<ChordModel>) -> int {
    least(500_000 + smooth_steps(chords, chords.len() as int) as int * 100_000, 1_000_000)
}

/// What stands out in a progression, as a value.
pub struct AnalysisModel {
    pub key_centers: Seq<KeyCenter>,
    pub common_patterns: Seq<PatternModel>,
    pub avg_chord_duration: int,
    pub regularity: int,
    pub rhythm_patterns: Seq<Seq<char>>,
    pub voice_leading_quality: int,
    pub improvements: Seq<Seq<char>>,
}

impl View for ProgressionAnalysis {
    type V = AnalysisModel;

    open spec fn view(&self) -> AnalysisModel {
        AnalysisModel {
            key_centers: self.key_centers@,
            common_patterns: pattern_models(self.common_patterns@),
            avg_chord_duration: self.harmonic_rhythm.avg_chord_duration.micros as int,
            regularity: self.harmonic_rhythm.regularity.micros as int,
            rhythm_patterns: texts(self.harmonic_rhythm.rhythm_patterns@),
            voice_leading_quality: self.voice_leading_quality.micros as int,
            improvements: texts(self.improvements@),
        }
    }
}

/// What stands out in a progression of one chord or more: its key, every
/// four chords in a row as a pattern, a regular rhythm of one chord to
/// twenty-four ticks, the quality of its voice leading, and two pieces of
/// advice.
pub open spec fn analysis_of(chords: Seq<ChordModel>) -> AnalysisModel {
    AnalysisModel {
        key_centers: seq![key_center_of(chords)],
        common_patterns: patterns_of(
            chords,
            if chords.len() >= 4 {
                chords.len() - 3
            } else {
                0
            },
        ),
        avg_chord_duration: 24_000_000,
        regularity: 800_000,
        rhythm_patterns: seq!["Regular"@],
        voice_leading_quality: voice_leading_quality(chords),
        improvements: seq![
            "Consider adding more voice leading between chords"@,
            "Try incorporating more common chord progressions"@,
        ],
    }
}

/// The number of chords that stand on a root.
fn count_root(progression: &[Chord], root: u8) -> (count: usize)
    ensures
        count == root_count(chord_models(progression@), root, progression@.len() as int),
        count <= progression@.len(),
{
    let ghost chords = chord_models(progression@);
    let mut count: usize = 0;
    let mut i: usize = 0;
    while i < progression.len()
        invariant
            i <= progression@.len(),
            chords == chord_models(progression@),
            count == root_count(chords, root, i as int),
            count <= i,
        decreases progression@.len() - i,
    {
        if progression[i].root == root {
            count = count + 1;
        }
        i = i + 1;
    }
    count
}

/// The key of a progression.
fn detect_key_center(progression: &[Chord]) -> (center: KeyCenter)
    requires
        progression@.len() > 0,
    ensures
        center == key_center_of(chord_models(progression@)),
{
    let ghost chords = chord_models(progression@);
    let n = progression.len();
    let mut root: u8 = progression[0].root;
    let mut count: usize = count_root(progression, root);
    let mut i: usize = 1;
    while i < n
        invariant
            1 <= i <= n,
            n == progression@.len(),
            chords == chord_models(progression@),
            root == leading_root(chords, i as int),
            count == root_count(chords, root, n as int),
            count <= n,
        decreases n - i,
    {
        let other = progression[i].root;
        let found = count_root(progression, other);
        if found > count {
            root = other;
            count = found;
        }
        i = i + 1;
    }
    let share: i128 = count as i128 * 1_000_000 / (n as i128);
    assert(0 <= share <= 1_000_000) by (nonlinear_arith)
        requires
            0 <= count <= n,
            n >= 1,
            share == (count * 1_000_000) / (n as int),
    ;
    KeyCenter {
        root,
        mode: Mode::Major,
        confidence: Fixed { micros: share as i64 },
        chord_range: (0, n),
    }
}

/// Every four chords in a row, as a pattern.
fn find_common_patterns(progression: &[Chord]) -> (patterns: Vec<CommonPattern>)
    ensures
        pattern_models(patterns@) == patterns_of(
            chord_models(progression@),
            if progression@.len() >= 4 {
                progression@.len() - 3
            } else {
                0
            },
        ),
{
    let ghost chords = chord_models(progression@);
    let n = progression.len();
    let mut patterns: Vec<CommonPattern> = Vec::new();
    let mut i: usize = 0;
    assert(pattern_models(patterns@) =~= patterns_of(chords, 0));
    while n >= 4 && i < n - 3
        invariant
            n == progression@.len(),
            n >= 4 ==> i <= n - 3,
            n < 4 ==> i == 0,
            chords == chord_models(progression@),
            pattern_models(patterns@) == patterns_of(chords, i as int),
        decreases n - i,
    {
        let mut window: Vec<Chord> = Vec::new();
        let mut k: usize = 0;
        while k < 4
            invariant
                k <= 4,
                i + 4 <= n,
                n == progression@.len(),
                chords == chord_models(progression@),
                chord_models(window@) == chords.subrange(i as int, i + k),
            decreases 4 - k,
        {
            let ghost before = chord_models(window@);
            window.push(progression[i + k].clone());
            assert(chord_models(window@) =~= before.push(chords[i + k]));
            assert(chords.subrange(i as int, i + k + 1) =~= chords.subrange(i as int, i + k).push(
                chords[i + k],
            ));
            k = k + 1;
        }
        let ghost before = pattern_models(patterns@);
        let pattern = CommonPattern {
            name: String::from_str("Common 4-chord pattern"),
            location: (i, i + 4),
            popularity: Fixed { micros: 700_000 },
            chords: window,
        };
        assert(pattern@ == pattern_at(chords, i as int));
        patterns.push(pattern);
        assert(pattern_models(patterns@) =~= before.push(pattern_at(chords, i as int)));
        i = i + 1;
        assert(pattern_models(patterns@) =~= patterns_of(chords, i as int));
    }
    patterns
}

/// The quality of the voice leading.
fn assess_voice_leading_quality(progression: &[Chord]) -> (quality: Fixed)
    ensures
        quality.micros == voice_leading_quality(chord_models(progression@)),
{
    let ghost chords = chord_models(progression@);
    let n = progression.len();
    let mut smooth: usize = 0;
    let mut i: usize = 1;
    while i < n
        invariant
            1 <= i,
            i <= n || n == 0,
            n == progression@.len(),
            chords == chord_models(progression@),
            smooth == smooth_steps(chords, if n == 0 {
                0
            } else {
                i as int
            }),
            smooth <= i,
        decreases n - i,
    {
        if calculate_root_interval(progression[i - 1].root, progression[i].root) <= 2 {
            smooth = smooth + 1;
        }
        i = i + 1;
    }
    let quality: i128 = 500_000 + smooth as i128 * 100_000;
    Fixed { micros: clamp_to(quality, 0, 1_000_000) }
}

impl MusicalAnalyzer {
    /// What stands out in a progression. An empty progression is refused
    /// as a failed analysis.
    pub fn analyze_progression(&self, progression: &[Chord]) -> (r: AiResult<ProgressionAnalysis>)
        ensures
            r is Ok <==> progression@.len() > 0,
            r matches Ok(analysis) ==> analysis@ == analysis_of(chord_models(progression@)),
            r matches Err(e) ==> e is AnalysisFailed,
    {
        if progression.len() == 0 {
            return Err(
                AiError::AnalysisFailed {
                    reason: String::from_str("Cannot analyze empty progression"),
                },
            );
        }
        let mut key_centers: Vec<KeyCenter> = Vec::new();
        key_centers.push(detect_key_center(progression));
        let mut rhythm_patterns: Vec<String> = Vec::new();
        rhythm_patterns.push(String::from_str("Regular"));
        let mut improvements: Vec<String> = Vec::new();
        improvements.push(String::from_str("Consider adding more voice leading between chords"));
        improvements.push(String::from_str("Try incorporating more common chord progressions"));
        let analysis = ProgressionAnalysis {
            key_centers,
            common_patterns: find_common_patterns(progression),
            harmonic_rhythm: HarmonicRhythm {
                avg_chord_duration: Fixed { micros: 24_000_000 },
                regularity: Fixed { micros: 800_000 },
                rhythm_patterns,
            },
            voice_leading_quality: assess_voice_leading_quality(progression),
            improvements,
        };
        let ghost wanted = analysis_of(chord_models(progression@));
        assert(analysis@.key_centers =~= wanted.key_centers);
        assert(analysis@.rhythm_patterns =~= wanted.rhythm_patterns);
        assert(analysis@.improvements =~= wanted.improvements);
        Ok(analysis)
    }
}

impl MusicalAnalyzer {
    /// The level of skill for a difficulty.
    pub fn classify_skill_level(&self, score: Fixed) -> (level: SkillLevel)
        ensures
            level == skill_for(score.micros as int),
    {
        classify_skill_level(score)
    }

    /// The mean complexity of the steps from one chord to the next.
    pub fn calculate_voice_leading_complexity(&self, progression: &[Chord]) -> (mean: Fixed)
        ensures
            mean.micros == voice_leading_complexity(chord_models(progression@)),
    {
        calculate_voice_leading_complexity(progression)
    }

    /// Whether a chord is more than a plain triad.
    pub fn is_extended_harmony(&self, chord: &Chord) -> (b: bool)
        ensures
            b == is_extended(chord@),
    {
        chord.chord_type >= 7 || chord.adds.len() > 0 || chord.alterations.len() > 0
    }

    /// The distance between the roots of two chords.
    pub fn calculate_root_interval(&self, chord1: &Chord, chord2: &Chord) -> (interval: u8)
        ensures
            interval == root_interval(chord1.root, chord2.root),
    {
        calculate_root_interval(chord1.root, chord2.root)
    }
}

} // verus!
