//! Chords for a bass note and chords for a set of scale degrees.
//!
//! Both searches try plain chords of a few types, score each by fixed tables
//! of how common and how complex such a chord is, and return the best in
//! falling order of their scores.

use vstd::prelude::*;
use crate::chord::{Chord, ChordModel};
use crate::config::quality;
use crate::error::{AiError, AiResult};
use crate::fixed::{Fixed, clamp, clamp_to, capped_times};
use crate::hash::{weight_of, lemma_weight_bound, lemma_weight_12};
use crate::ranking::{collected, sorted_desc, top, lemma_collected};
use crate::scoring::{least, greatest};
use crate::suggestions::{
    ChordProgressionSuggester, ChordSuggestion, SuggestionModel, SCORE_BOUND, suggestions_of,
    keep_best_suggestion, lemma_collected_push, clock_now, clock_elapsed_ms,
};
use crate::text::{text_eq, to_uppercase, uppercase_of, decimal_text, decimal_digits};
use crate::trie::{PatternResult, HitModel};

verus! {

/// The score that a candidate has to pass, in millionths.
pub const HARMONY_THRESHOLD: i64 = 300_000;

/// The chromatic step of a note name in capitals: the seven letters, each
/// with a sharp or, written with a `B`, a flat where there is a black key.
pub open spec fn bass_step(upper: Seq<char>) -> Option<u8> {
    if upper == "C"@ {
        Some(0)
    } else if upper == "C#"@ || upper == "DB"@ {
        Some(1)
    } else if upper == "D"@ {
        Some(2)
    } else if upper == "D#"@ || upper == "EB"@ {
        Some(3)
    } else if upper == "E"@ {
        Some(4)
    } else if upper == "F"@ {
        Some(5)
    } else if upper == "F#"@ || upper == "GB"@ {
        Some(6)
    } else if upper == "G"@ {
        Some(7)
    } else if upper == "G#"@ || upper == "AB"@ {
        Some(8)
    } else if upper == "A"@ {
        Some(9)
    } else if upper == "A#"@ || upper == "BB"@ {
        Some(10)
    } else if upper == "B"@ {
        Some(11)
    } else {
        None
    }
}

/// The chromatic step of a note name in capitals.
pub fn bass_note_step(upper: &str) -> (r: Option<u8>)
    ensures
        r == bass_step(upper@),
{
    if text_eq(upper, "C") {
        Some(0)
    } else if text_eq(upper, "C#") || text_eq(upper, "DB") {
        Some(1)
    } else if text_eq(upper, "D") {
        Some(2)
    } else if text_eq(upper, "D#") || text_eq(upper, "EB") {
        Some(3)
    } else if text_eq(upper, "E") {
        Some(4)
    } else if text_eq(upper, "F") {
        Some(5)
    } else if text_eq(upper, "F#") || text_eq(upper, "GB") {
        Some(6)
    } else if text_eq(upper, "G") {
        Some(7)
    } else if text_eq(upper, "G#") || text_eq(upper, "AB") {
        Some(8)
    } else if text_eq(upper, "A") {
        Some(9)
    } else if text_eq(upper, "A#") || text_eq(upper, "BB") {
        Some(10)
    } else if text_eq(upper, "B") {
        Some(11)
    } else {
        None
    }
}

/// `n` times `each`, as far as ten goes.
pub open spec fn counted(n: nat, each: int) -> int {
    least(n * each, 10_000_000)
}

/// How common a chord of the given type is over a bass note.
pub open spec fn bass_frequency(chord_type: u8) -> int {
    if chord_type == 5 {
        800_000
    } else if chord_type == 7 {
        600_000
    } else if chord_type == 9 {
        300_000
    } else {
        100_000
    }
}

/// The complexity of a chord over a bass note, from 1 to 10: one more for a
/// ninth chord or above, and a half for each alteration.
pub open spec fn bass_complexity(m: ChordModel) -> int {
    least(
        1_000_000 + (if m.chord_type >= 9 {
            1_000_000int
        } else {
            0int
        }) + counted(m.alterations.len(), 500_000),
        10_000_000,
    )
}

/// The weight of a chord over a bass note: its frequency, divided by one
/// and a tenth of its complexity.
pub open spec fn bass_weight(m: ChordModel) -> int {
    bass_frequency(m.chord_type) * 1_000_000 / (1_000_000 + bass_complexity(m) / 10)
}

/// The match that stands behind a suggestion that no stored pattern gave.
pub open spec fn made_hit(count: nat, relative: int, weight: int) -> HitModel {
    HitModel {
        key: seq![0u8, 0u8, 0u8, 0u8, 0u8],
        count,
        rank: 1,
        relative_count: relative,
        refs: Seq::empty(),
        weight,
    }
}

/// The suggestion of a chord for a bass note.
pub open spec fn bass_suggestion(m: ChordModel, note: Seq<char>) -> SuggestionModel {
    SuggestionModel {
        chord: m,
        confidence: bass_weight(m),
        frequency_score: bass_frequency(m.chord_type),
        context_score: 500_000,
        theory_score: 1_000_000 - bass_complexity(m) / 10,
        weighted_score: bass_weight(m),
        pattern_info: made_hit(
            (bass_frequency(m.chord_type) / 1_000) as nat,
            bass_frequency(m.chord_type),
            bass_weight(m),
        ),
        reasoning: "Bass note "@ + note + " harmonization"@,
    }
}

/// The chord types that are tried over a bass note.
pub open spec fn bass_type(k: int) -> u8 {
    if k == 0 {
        5
    } else if k == 1 {
        7
    } else {
        9
    }
}

/// The suggestions of the first `upto` chord types over a bass note: the
/// plain chord of each type on the degree one above the step, where that is
/// a chord and its weight passes the threshold.
pub open spec fn bass_candidates(step: u8, note: Seq<char>, upto: int) -> Seq<SuggestionModel>
    decreases upto,
{
    if upto <= 0 {
        Seq::empty()
    } else {
        let rest = bass_candidates(step, note, upto - 1);
        let m = ChordModel::plain((step + 1) as u8, bass_type(upto - 1));
        if m.valid() && bass_weight(m) > HARMONY_THRESHOLD {
            rest.push(bass_suggestion(m, note))
        } else {
            rest
        }
    }
}

/// The best `limit` suggestions for a bass note, in falling order of their
/// weights.
pub open spec fn bass_solutions(step: u8, note: Seq<char>, limit: int) -> Seq<SuggestionModel> {
    top(sorted_desc(bass_candidates(step, note, 3)), limit)
}

/// What a request for the chords over a bass note is answered with: the
/// note is refused as an invalid pattern where it is no note name.
pub open spec fn answers_bass(r: AiResult<Vec<ChordSuggestion>>, note: Seq<char>, limit: usize) -> bool {
    match bass_step(uppercase_of(note)) {
        Some(step) => r matches Ok(v) && suggestions_of(v@) == bass_solutions(
            step,
            note,
            limit as int,
        ) && v@.len() <= limit,
        None => r matches Err(e) && e matches AiError::InvalidPattern { reason } && reason@
            == "Invalid bass note: "@ + note,
    }
}

/// The match that stands behind a suggestion that no stored pattern gave.
fn make_hit(count: u32, relative: Fixed, weight: Fixed) -> (hit: PatternResult)
    ensures
        hit@ == made_hit(count as nat, relative.value(), weight.value()),
{
    let hit = PatternResult {
        serialized_chord: [0, 0, 0, 0, 0],
        count,
        rank: 1,
        relative_count: relative,
        id_list: Vec::new(),
        weight,
    };
    assert(hit@.key =~= seq![0u8, 0u8, 0u8, 0u8, 0u8]);
    assert(hit@.refs =~= Seq::empty());
    hit
}

/// The suggestion of a chord for a bass note.
fn suggest_for_bass(chord: Chord, bass_note: &str) -> (s: ChordSuggestion)
    ensures
        s@ == bass_suggestion(chord@, bass_note@),
{
    let frequency: i64 = match chord.chord_type {
        5 => 800_000,
        7 => 600_000,
        9 => 300_000,
        _ => 100_000,
    };
    let extended: i128 = if chord.chord_type >= 9 {
        1_000_000
    } else {
        0
    };
    let altered = capped_times(chord.alterations.len(), 500_000, 10_000_000);
    let complexity = clamp_to(1_000_000 + extended + altered, 0, 10_000_000);
    let weight: i64 = frequency * 1_000_000 / (1_000_000 + complexity / 10);
    let mut reasoning = String::from_str("Bass note ");
    reasoning.append(bass_note);
    reasoning.append(" harmonization");
    ChordSuggestion {
        chord,
        confidence: Fixed { micros: weight },
        frequency_score: Fixed { micros: frequency },
        context_score: Fixed { micros: 500_000 },
        theory_score: Fixed { micros: 1_000_000 - complexity / 10 },
        weighted_score: Fixed { micros: weight },
        pattern_info: make_hit(
            (frequency / 1_000) as u32,
            Fixed { micros: frequency },
            Fixed { micros: weight },
        ),
        reasoning,
    }
}

impl ChordProgressionSuggester {
    /// The chromatic step of a note name, in capitals or small letters.
    pub fn parse_bass_note(&self, bass_note: &str) -> (r: AiResult<u8>)
        ensures
            r is Ok <==> bass_step(uppercase_of(bass_note@)) is Some,
            r matches Ok(step) ==> Some(step) == bass_step(uppercase_of(bass_note@)),
            r matches Err(e) ==> e matches AiError::InvalidPattern { reason } && reason@
                == "Invalid bass note: "@ + bass_note@,
    {
        let upper = to_uppercase(bass_note);
        match bass_note_step(upper.as_str()) {
            Some(step) => Ok(step),
            None => {
                let mut reason = String::from_str("Invalid bass note: ");
                reason.append(bass_note);
                Err(AiError::InvalidPattern { reason })
            },
        }
    }

    /// The best `limit` chords over a bass note.
    pub fn magic_bass_solutions(&self, bass_note: &str, limit: usize) -> (r: AiResult<
        Vec<ChordSuggestion>,
    >)
        ensures
            answers_bass(r, bass_note@, limit),
    {
        let step = match self.parse_bass_note(bass_note) {
            Ok(step) => step,
            Err(e) => {
                return Err(e);
            },
        };
        assert(step <= 11);
        let types: [u8; 3] = [5, 7, 9];
        let mut out: Vec<ChordSuggestion> = Vec::new();
        let mut k: usize = 0;
        assert(suggestions_of(out@) =~= collected(
            Seq::empty(),
            bass_candidates(step, bass_note@, 0),
            limit as int,
        ));
        while k < 3
            invariant
                k <= 3,
                step <= 11,
                types@ == seq![5u8, 7u8, 9u8],
                out@.len() <= limit,
                suggestions_of(out@) == collected(
                    Seq::empty(),
                    bass_candidates(step, bass_note@, k as int),
                    limit as int,
                ),
            decreases 3 - k,
        {
            let ghost before = bass_candidates(step, bass_note@, k as int);
            assert(types@[k as int] == bass_type(k as int));
            match Chord::new(step + 1, types[k]) {
                Ok(chord) => {
                    let suggestion = suggest_for_bass(chord, bass_note);
                    if suggestion.weighted_score.micros > quality().confidence_threshold.micros {
                        proof {
                            lemma_collected_push(before, suggestion@, limit as int);
                        }
                        keep_best_suggestion(&mut out, suggestion, limit);
                    }
                },
                Err(_) => {},
            }
            k = k + 1;
        }
        proof {
            lemma_collected(bass_candidates(step, bass_note@, 3), limit as int);
        }
        Ok(out)
    }

    /// The best `limit` chords over a bass note, with the time of the call
    /// taken into the average. The scale has no part in it.
    pub fn get_magic_bass_solutions(&mut self, bass_note: &str, _scale: &str, limit: usize) -> (r:
        AiResult<Vec<ChordSuggestion>>)
        requires
            0 <= old(self).average_ms() <= SCORE_BOUND,
        ensures
            final(self).cache() == old(self).cache(),
            final(self).threshold() == old(self).threshold(),
            0 <= final(self).average_ms() <= SCORE_BOUND,
            answers_bass(r, bass_note@, limit),
    {
        let started = clock_now();
        let suggestions = match self.magic_bass_solutions(bass_note, limit) {
            Ok(v) => v,
            Err(e) => {
                return Err(e);
            },
        };
        self.update_performance_metrics(clock_elapsed_ms(&started));
        Ok(suggestions)
    }
}

/// Whether bit `i` of a number is set.
pub open spec fn bit_at(bits: u32, i: int) -> bool {
    (bits as int / weight_of(i)) % 2 == 1
}

/// The scale degrees of a mask: degree `i + 1` for each of the first `upto`
/// bits that is set.
pub open spec fn mask_degrees(bits: u32, upto: int) -> Seq<u8>
    decreases upto,
{
    if upto <= 0 {
        Seq::empty()
    } else if bit_at(bits, upto - 1) {
        mask_degrees(bits, upto - 1).push(upto as u8)
    } else {
        mask_degrees(bits, upto - 1)
    }
}

/// The degree that stands `above` steps over a root, within the seven degrees.
pub open spec fn tone_above(root: u8, above: int) -> int {
    (root + above - 1) % 7 + 1
}

/// Whether a chord has a tone among the degrees: its root, and in a triad,
/// a seventh or a ninth chord the tones stacked on it.
pub open spec fn shares_degree(m: ChordModel, degrees: Seq<u8>) -> bool {
    let has = |d: int| exists|i: int| 0 <= i < degrees.len() && degrees[i] == d;
    ||| has(m.root as int)
    ||| ((m.chord_type == 5 || m.chord_type == 7 || m.chord_type == 9) && (has(
        tone_above(m.root, 2),
    ) || has(tone_above(m.root, 4))))
    ||| ((m.chord_type == 7 || m.chord_type == 9) && has(tone_above(m.root, 6)))
    ||| (m.chord_type == 9 && has(tone_above(m.root, 1)))
}

/// How simple a chord is to look up, from 0 to 1.
pub open spec fn lookup_score(m: ChordModel) -> int {
    let base = if m.chord_type == 5 {
        1_000_000int
    } else if m.chord_type == 7 {
        3_000_000
    } else if m.chord_type == 9 {
        5_000_000
    } else if m.chord_type == 11 {
        7_000_000
    } else if m.chord_type == 13 {
        9_000_000
    } else {
        5_000_000
    };
    let total = base + counted(m.alterations.len(), 500_000) + counted(
        m.suspensions.len(),
        300_000,
    ) + counted(m.adds.len(), 200_000) + counted(m.omits.len(), 400_000);
    greatest((10_000_000 - total) / 10, 0)
}

/// The number of notes of a chord: those of its type, with the added and
/// the suspended tones and without the omitted ones, and at least one.
pub open spec fn note_count(m: ChordModel) -> int {
    let base = if m.chord_type == 7 {
        4int
    } else if m.chord_type == 9 {
        5
    } else if m.chord_type == 11 {
        6
    } else if m.chord_type == 13 {
        7
    } else {
        3
    };
    greatest(base + m.adds.len() + m.suspensions.len() - m.omits.len(), 1)
}

/// How well the number of notes of a chord suits: up to four suit best.
pub open spec fn length_score(m: ChordModel) -> int {
    let notes = note_count(m);
    if notes <= 4 {
        1_000_000
    } else if notes == 5 {
        900_000
    } else if notes == 6 {
        700_000
    } else if notes == 7 {
        500_000
    } else if notes == 8 {
        300_000
    } else {
        100_000
    }
}

/// How simple a chord is, from 0 to 1.
pub open spec fn simplicity_score(m: ChordModel) -> int {
    let base = if m.chord_type == 5 {
        1_000_000int
    } else if m.chord_type == 7 {
        2_000_000
    } else if m.chord_type == 9 {
        3_000_000
    } else if m.chord_type == 11 {
        4_000_000
    } else if m.chord_type == 13 {
        5_000_000
    } else {
        6_000_000
    };
    let total = base + counted(m.alterations.len(), 500_000) + counted(
        m.suspensions.len(),
        300_000,
    ) + counted(m.adds.len(), 200_000) + (if m.applied > 0 {
        1_000_000int
    } else {
        0
    }) + (if m.borrowed is Some {
        1_500_000int
    } else {
        0
    });
    greatest((10_000_000 - total) / 10, 0)
}

/// How popular chords of a type are.
pub open spec fn type_popularity(chord_type: u8) -> int {
    if chord_type == 5 {
        900_000
    } else if chord_type == 7 {
        700_000
    } else if chord_type == 9 {
        500_000
    } else if chord_type == 11 {
        300_000
    } else if chord_type == 13 {
        200_000
    } else {
        100_000
    }
}

/// How popular chords on a root are.
pub open spec fn root_popularity(root: u8) -> int {
    if root == 1 {
        1_000_000
    } else if root == 5 {
        900_000
    } else if root == 4 {
        800_000
    } else if root == 6 {
        700_000
    } else if root == 2 {
        600_000
    } else if root == 3 {
        400_000
    } else if root == 7 {
        500_000
    } else {
        300_000
    }
}

/// What the most common chords get on top.
pub open spec fn common_bonus(root: u8, chord_type: u8) -> int {
    if (root == 1 && chord_type == 5) || (root == 5 && chord_type == 7) {
        100_000
    } else if (root == 2 && chord_type == 7) || (root == 4 && chord_type == 5) {
        50_000
    } else {
        0
    }
}

/// How popular a chord is, from 0 to 1: the popularity of its type times
/// that of its root, less a little for each alteration, suspension and
/// added tone, and more for the most common chords.
pub open spec fn popularity_score(m: ChordModel) -> int {
    clamp(
        type_popularity(m.chord_type) * root_popularity(m.root) / 1_000_000 - (counted(
            m.alterations.len(),
            50_000,
        ) + counted(m.suspensions.len(), 20_000) + counted(m.adds.len(), 20_000)) + common_bonus(
            m.root,
            m.chord_type,
        ),
        0,
        1_000_000,
    )
}

/// The score of a chord for a set of degrees: two tenths each of the lookup
/// and the length score, three tenths each of the simplicity and the
/// popularity.
pub open spec fn degree_score(m: ChordModel) -> int {
    (2 * lookup_score(m) + 2 * length_score(m) + 3 * simplicity_score(m) + 3 * popularity_score(
        m,
    )) / 10
}

/// The first `upto` numbers of a list in decimal, with a comma and a space
/// between them.
pub open spec fn listed_numbers(numbers: Seq<u8>, upto: int) -> Seq<char>
    decreases upto,
{
    if upto <= 0 || upto > numbers.len() {
        Seq::empty()
    } else if upto == 1 {
        decimal_digits(numbers[0] as nat)
    } else {
        listed_numbers(numbers, upto - 1) + ", "@ + decimal_digits(numbers[upto - 1] as nat)
    }
}

/// The suggestion of a chord for a set of degrees.
pub open spec fn degree_suggestion(m: ChordModel, degrees: Seq<u8>) -> SuggestionModel {
    SuggestionModel {
        chord: m,
        confidence: degree_score(m),
        frequency_score: popularity_score(m),
        context_score: 500_000,
        theory_score: simplicity_score(m),
        weighted_score: degree_score(m),
        pattern_info: made_hit(
            (popularity_score(m) / 10_000) as nat,
            popularity_score(m),
            degree_score(m),
        ),
        reasoning: "Harmonizes scale degrees ["@ + listed_numbers(degrees, degrees.len() as int)
            + "]"@,
    }
}

/// The chord types that are tried for a set of degrees.
pub open spec fn degree_type(k: int) -> u8 {
    if k == 0 {
        5
    } else if k == 1 {
        7
    } else if k == 2 {
        9
    } else if k == 3 {
        11
    } else {
        13
    }
}

/// The chord that is tried at place `k`: type by type, and root by root
/// within a type.
pub open spec fn degree_chord(k: int) -> ChordModel {
    ChordModel::plain((k % 7 + 1) as u8, degree_type(k / 7))
}

/// Whether a chord is suggested for a set of degrees: it is a chord, it
/// shares a degree with the set, for a set of one degree it stands on that
/// degree, and its score passes the threshold.
pub open spec fn suits_degrees(m: ChordModel, degrees: Seq<u8>) -> bool {
    &&& m.valid()
    &&& shares_degree(m, degrees)
    &&& (degrees.len() == 1 ==> degrees[0] == m.root)
    &&& degree_score(m) > HARMONY_THRESHOLD
}

/// The suggestions among the first `upto` chords that are tried.
pub open spec fn degree_candidates(degrees: Seq<u8>, upto: int) -> Seq<SuggestionModel>
    decreases upto,
{
    if upto <= 0 {
        Seq::empty()
    } else if suits_degrees(degree_chord(upto - 1), degrees) {
        degree_candidates(degrees, upto - 1).push(
            degree_suggestion(degree_chord(upto - 1), degrees),
        )
    } else {
        degree_candidates(degrees, upto - 1)
    }
}

/// The best `limit` suggestions for a set of degrees, in falling order of
/// their scores.
pub open spec fn degree_solutions(degrees: Seq<u8>, limit: int) -> Seq<SuggestionModel> {
    top(sorted_desc(degree_candidates(degrees, 35)), limit)
}

/// What a request for the chords for a mask of degrees is answered with: a
/// mask without degrees is refused as an invalid pattern.
pub open spec fn answers_degrees(r: AiResult<Vec<ChordSuggestion>>, bits: u32, limit: usize) -> bool {
    if mask_degrees(bits, 13).len() == 0 {
        r matches Err(e) && e is InvalidPattern
    } else {
        r matches Ok(v) && suggestions_of(v@) == degree_solutions(
            mask_degrees(bits, 13),
            limit as int,
        ) && v@.len() <= limit
    }
}

/// Whether a degree stands in a list.
fn has_degree(degrees: &Vec<u8>, d: u8) -> (b: bool)
    ensures
        b == exists|i: int| 0 <= i < degrees@.len() && degrees@[i] == d,
{
    let mut i: usize = 0;
    while i < degrees.len()
        invariant
            i <= degrees@.len(),
            forall|j: int| 0 <= j < i ==> degrees@[j] != d,
        decreases degrees@.len() - i,
    {
        if degrees[i] == d {
            return true;
        }
        i = i + 1;
    }
    false
}

/// The degree that stands `above` steps over a root.
fn tone_over(root: u8, above: u8) -> (d: u8)
    requires
        1 <= above <= 6,
    ensures
        d == tone_above(root, above as int),
{
    ((root as u16 + above as u16 - 1) % 7 + 1) as u8
}

/// Whether a chord has a tone among the degrees.
fn chord_contains_scale_degrees(chord: &Chord, degrees: &Vec<u8>) -> (b: bool)
    ensures
        b == shares_degree(chord@, degrees@),
{
    let t = chord.chord_type;
    let root = chord.root;
    if has_degree(degrees, root) {
        return true;
    }
    if t == 5 || t == 7 || t == 9 {
        if has_degree(degrees, tone_over(root, 2)) || has_degree(degrees, tone_over(root, 4)) {
            return true;
        }
    }
    if t == 7 || t == 9 {
        if has_degree(degrees, tone_over(root, 6)) {
            return true;
        }
    }
    if t == 9 {
        if has_degree(degrees, tone_over(root, 1)) {
            return true;
        }
    }
    false
}

/// How simple a chord is to look up.
fn calculate_lookup_score(chord: &Chord) -> (s: i64)
    ensures
        s == lookup_score(chord@),
        0 <= s <= 1_000_000,
{
    let base: i128 = match chord.chord_type {
        5 => 1_000_000,
        7 => 3_000_000,
        9 => 5_000_000,
        11 => 7_000_000,
        13 => 9_000_000,
        _ => 5_000_000,
    };
    let total = base + capped_times(chord.alterations.len(), 500_000, 10_000_000) + capped_times(
        chord.suspensions.len(),
        300_000,
        10_000_000,
    ) + capped_times(chord.adds.len(), 200_000, 10_000_000) + capped_times(
        chord.omits.len(),
        400_000,
        10_000_000,
    );
    if total >= 10_000_000 {
        0
    } else {
        ((10_000_000 - total) / 10) as i64
    }
}

/// How well the number of notes of a chord suits.
fn calculate_length_score(chord: &Chord) -> (s: i64)
    ensures
        s == length_score(chord@),
        0 <= s <= 1_000_000,
{
    let base: i128 = match chord.chord_type {
        7 => 4,
        9 => 5,
        11 => 6,
        13 => 7,
        _ => 3,
    };
    let more = chord.adds.len() as i128 + chord.suspensions.len() as i128;
    let notes = base + more - chord.omits.len() as i128;
    if notes <= 4 {
        1_000_000
    } else if notes == 5 {
        900_000
    } else if notes == 6 {
        700_000
    } else if notes == 7 {
        500_000
    } else if notes == 8 {
        300_000
    } else {
        100_000
    }
}

/// How simple a chord is.
fn calculate_complexity_score_for_sd(chord: &Chord) -> (s: i64)
    ensures
        s == simplicity_score(chord@),
        0 <= s <= 1_000_000,
{
    let base: i128 = match chord.chord_type {
        5 => 1_000_000,
        7 => 2_000_000,
        9 => 3_000_000,
        11 => 4_000_000,
        13 => 5_000_000,
        _ => 6_000_000,
    };
    let applied: i128 = if chord.applied > 0 {
        1_000_000
    } else {
        0
    };
    let borrowed: i128 = if chord.borrowed.is_some() {
        1_500_000
    } else {
        0
    };
    let total = base + capped_times(chord.alterations.len(), 500_000, 10_000_000) + capped_times(
        chord.suspensions.len(),
        300_000,
        10_000_000,
    ) + capped_times(chord.adds.len(), 200_000, 10_000_000) + applied + borrowed;
    if total >= 10_000_000 {
        0
    } else {
        ((10_000_000 - total) / 10) as i64
    }
}

/// How popular a chord is.
fn calculate_magic_score(chord: &Chord) -> (s: i64)
    ensures
        s == popularity_score(chord@),
        0 <= s <= 1_000_000,
{
    let by_type: i128 = match chord.chord_type {
        5 => 900_000,
        7 => 700_000,
        9 => 500_000,
        11 => 300_000,
        13 => 200_000,
        _ => 100_000,
    };
    let by_root: i128 = match chord.root {
        1 => 1_000_000,
        5 => 900_000,
        4 => 800_000,
        6 => 700_000,
        2 => 600_000,
        3 => 400_000,
        7 => 500_000,
        _ => 300_000,
    };
    let penalty = capped_times(chord.alterations.len(), 50_000, 10_000_000) + capped_times(
        chord.suspensions.len(),
        20_000,
        10_000_000,
    ) + capped_times(chord.adds.len(), 20_000, 10_000_000);
    let root = chord.root;
    let t = chord.chord_type;
    let bonus: i128 = if (root == 1 && t == 5) || (root == 5 && t == 7) {
        100_000
    } else if (root == 2 && t == 7) || (root == 4 && t == 5) {
        50_000
    } else {
        0
    };
    assert(by_type * by_root <= 900_000 * 1_000_000) by (nonlinear_arith)
        requires
            0 <= by_type <= 900_000,
            0 <= by_root <= 1_000_000,
    ;
    clamp_to(by_type * by_root / 1_000_000 - penalty + bonus, 0, 1_000_000)
}

/// The numbers of a list in decimal, in brackets.
fn bracketed(before: &str, numbers: &Vec<u8>) -> (s: String)
    ensures
        s@ == before@ + listed_numbers(numbers@, numbers@.len() as int) + "]"@,
{
    let mut s = String::from_str(before);
    let mut i: usize = 0;
    assert(s@ =~= before@ + listed_numbers(numbers@, 0));
    while i < numbers.len()
        invariant
            i <= numbers@.len(),
            s@ == before@ + listed_numbers(numbers@, i as int),
        decreases numbers@.len() - i,
    {
        if i > 0 {
            s.append(", ");
        }
        s.append(decimal_text(numbers[i] as u64).as_str());
        i = i + 1;
        assert(s@ =~= before@ + listed_numbers(numbers@, i as int));
    }
    s.append("]");
    s
}

/// The suggestion of a chord for a set of degrees.
fn suggest_for_degrees(chord: Chord, degrees: &Vec<u8>) -> (s: ChordSuggestion)
    ensures
        s@ == degree_suggestion(chord@, degrees@),
{
    let lookup = calculate_lookup_score(&chord);
    let length = calculate_length_score(&chord);
    let simplicity = calculate_complexity_score_for_sd(&chord);
    let popularity = calculate_magic_score(&chord);
    let total: i64 = (2 * lookup + 2 * length + 3 * simplicity + 3 * popularity) / 10;
    ChordSuggestion {
        chord,
        confidence: Fixed { micros: total },
        frequency_score: Fixed { micros: popularity },
        context_score: Fixed { micros: 500_000 },
        theory_score: Fixed { micros: simplicity },
        weighted_score: Fixed { micros: total },
        pattern_info: make_hit(
            (popularity / 10_000) as u32,
            Fixed { micros: popularity },
            Fixed { micros: total },
        ),
        reasoning: bracketed("Harmonizes scale degrees [", degrees),
    }
}

impl ChordProgressionSuggester {
    /// The scale degrees of a mask: degree `i + 1` for each of the lowest
    /// thirteen bits that is set.
    pub fn bits_to_scale_degrees(&self, bits: u32) -> (degrees: Vec<u8>)
        ensures
            degrees@ == mask_degrees(bits, 13),
    {
        let mut degrees: Vec<u8> = Vec::new();
        let mut weight: u32 = 1;
        let mut i: u8 = 0;
        assert(weight_of(0) == 1);
        while i < 13
            invariant
                i <= 13,
                weight == weight_of(i as int),
                1 <= weight <= 8192,
                degrees@ == mask_degrees(bits, i as int),
            decreases 13 - i,
        {
            if (bits / weight) % 2 == 1 {
                degrees.push(i + 1);
            }
            proof {
                if i < 12 {
                    lemma_weight_bound(i as int);
                } else {
                    lemma_weight_12();
                }
                assert(weight_of(i + 1) == 2 * weight_of(i as int));
            }
            if i < 12 {
                weight = weight * 2;
            } else {
                weight = 8192;
            }
            i = i + 1;
        }
        degrees
    }

    /// The best `limit` chords for a mask of scale degrees.
    pub fn harmonize_by_sd_solutions(&self, scale_degree_bits: u32, limit: usize) -> (r: AiResult<
        Vec<ChordSuggestion>,
    >)
        ensures
            answers_degrees(r, scale_degree_bits, limit),
    {
        let degrees = self.bits_to_scale_degrees(scale_degree_bits);
        if degrees.len() == 0 {
            return Err(
                AiError::InvalidPattern { reason: String::from_str("No scale degrees specified") },
            );
        }
        let types: [u8; 5] = [5, 7, 9, 11, 13];
        let mut out: Vec<ChordSuggestion> = Vec::new();
        let mut k: usize = 0;
        assert(suggestions_of(out@) =~= collected(
            Seq::empty(),
            degree_candidates(degrees@, 0),
            limit as int,
        ));
        while k < 35
            invariant
                k <= 35,
                types@ == seq![5u8, 7u8, 9u8, 11u8, 13u8],
                out@.len() <= limit,
                degrees@.len() > 0,
                suggestions_of(out@) == collected(
                    Seq::empty(),
                    degree_candidates(degrees@, k as int),
                    limit as int,
                ),
            decreases 35 - k,
        {
            let ghost before = degree_candidates(degrees@, k as int);
            assert(types@[k as int / 7] == degree_type(k as int / 7));
            let root = (k % 7 + 1) as u8;
            match Chord::new(root, types[k / 7]) {
                Ok(chord) => {
                    if chord_contains_scale_degrees(&chord, &degrees) && !(degrees.len() == 1
                        && degrees[0] != root) {
                        let suggestion = suggest_for_degrees(chord, &degrees);
                        if suggestion.weighted_score.micros
                            > quality().confidence_threshold.micros {
                            proof {
                                lemma_collected_push(before, suggestion@, limit as int);
                            }
                            keep_best_suggestion(&mut out, suggestion, limit);
                        }
                    }
                },
                Err(_) => {},
            }
            k = k + 1;
        }
        proof {
            lemma_collected(degree_candidates(degrees@, 35), limit as int);
        }
        Ok(out)
    }

    /// The best `limit` chords for a mask of scale degrees, with the time of
    /// the call taken into the average. The scale has no part in it.
    pub fn get_harmonize_by_sd_solutions(
        &mut self,
        scale_degree_bits: u32,
        _scale: &str,
        limit: usize,
    ) -> (r: AiResult<Vec<ChordSuggestion>>)
        requires
            0 <= old(self).average_ms() <= SCORE_BOUND,
        ensures
            final(self).cache() == old(self).cache(),
            final(self).threshold() == old(self).threshold(),
            0 <= final(self).average_ms() <= SCORE_BOUND,
            answers_degrees(r, scale_degree_bits, limit),
    {
        let started = clock_now();
        let suggestions = match self.harmonize_by_sd_solutions(scale_degree_bits, limit) {
            Ok(v) => v,
            Err(e) => {
                return Err(e);
            },
        };
        self.update_performance_metrics(clock_elapsed_ms(&started));
        Ok(suggestions)
    }
}

} // verus!
