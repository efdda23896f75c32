//! The formulas of the scorer, in millionths.
//!
//! Every score is a count of millionths. A product of two scores is rounded
//! down to the next millionth (`scaled_mul`); sums are exact.

use vstd::prelude::*;
use crate::chord::ChordModel;
use crate::fixed::{SCALE, clamp, scaled_mul, scaled_ratio};
use crate::text::lowercase_of;

verus! {

/// The lesser of two numbers.
pub open spec fn least(a: int, b: int) -> int {
    if a <= b {
        a
    } else {
        b
    }
}

/// The greater of two numbers.
pub open spec fn greatest(a: int, b: int) -> int {
    if a >= b {
        a
    } else {
        b
    }
}

/// The distance between two numbers.
pub open spec fn distance(a: int, b: int) -> int {
    if a >= b {
        a - b
    } else {
        b - a
    }
}

// ---------------------------------------------------------------------------
// Context-window weighting
// ---------------------------------------------------------------------------
/// How much of the search pattern is context: one minus the share of the
/// positions that are no context. An empty pattern counts as all context.
pub open spec fn context_match(prev: int, next: int, total: int) -> int {
    if total == 0 {
        SCALE as int
    } else {
        SCALE - ((total - (prev + next)) * SCALE) / total
    }
}

/// The context length, counted 1.7 times where more chords follow the gap
/// than precede it.
pub open spec fn context_bonus(prev: int, next: int) -> int {
    (prev + next) * if next > prev {
        1_700_000int
    } else {
        1_000_000int
    }
}

/// The relative count times the context bonus, over ten thousand, capped at one.
pub open spec fn statistical_strength(relative: int, bonus: int) -> int {
    least((relative * bonus) / 10_000_000_000, SCALE as int)
}

/// The weight of a candidate for a gap: the context match times the
/// statistical strength.
pub open spec fn magic_weight(prev: int, next: int, total: int, relative: int) -> int {
    scaled_mul(
        context_match(prev, next, total),
        statistical_strength(relative, context_bonus(prev, next)),
    )
}

// ---------------------------------------------------------------------------
// Frequency
// ---------------------------------------------------------------------------
/// The count over an assumed ceiling of one thousand, capped at one.
pub open spec fn frequency_score(count: int) -> int {
    least(count * 1000, SCALE as int)
}

/// The count over one hundred, capped at one.
pub open spec fn frequency_confidence(count: int) -> int {
    least(count * 10_000, SCALE as int)
}

// ---------------------------------------------------------------------------
// Context
// ---------------------------------------------------------------------------
/// How well a chord suits a position in the progression: triads open and
/// close well, sevenths build tension late, and the tonic gains at both ends.
pub open spec fn position_score(m: ChordModel, position: int) -> int {
    let base = if m.chord_type == 5 {
        if position < 250_000 {
            800_000int
        } else if position > 750_000 {
            900_000int
        } else {
            600_000int
        }
    } else if m.chord_type == 7 {
        if position > 500_000 {
            800_000int
        } else {
            500_000int
        }
    } else {
        500_000int
    };
    let tonic = if m.root == 1 && !(200_000 <= position <= 800_000) {
        200_000int
    } else {
        0int
    };
    least(base + tonic, SCALE as int)
}

/// The emotional valence of a chord by type and root, from -1 to 1.
pub open spec fn chord_valence(m: ChordModel) -> int {
    if m.chord_type == 5 {
        if m.root == 1 || m.root == 4 || m.root == 5 {
            600_000
        } else if m.root == 2 || m.root == 3 || m.root == 6 {
            -200_000
        } else if m.root == 7 {
            -400_000
        } else {
            0
        }
    } else if m.chord_type == 7 {
        if m.root == 1 {
            400_000
        } else if m.root == 5 {
            100_000
        } else if m.root == 2 || m.root == 6 {
            -100_000
        } else {
            0
        }
    } else {
        0
    }
}

/// How close the valence of a chord, a tenth lower for each alteration, comes
/// to the target: one minus half the distance, not below zero.
pub open spec fn valence_score(m: ChordModel, target: int) -> int {
    let own = clamp(chord_valence(m) - 100_000 * m.alterations.len(), -SCALE, SCALE as int);
    greatest(SCALE - distance(own, target) / 2, 0)
}

/// The complexity of a chord for the scorer, from 0 to 1.
pub open spec fn chord_complexity(m: ChordModel) -> int {
    let base = if m.chord_type == 5 {
        100_000int
    } else if m.chord_type == 7 {
        300_000int
    } else if m.chord_type == 9 {
        500_000int
    } else if m.chord_type == 11 {
        700_000int
    } else if m.chord_type == 13 {
        900_000int
    } else {
        500_000int
    };
    least(
        base + 100_000 * m.alterations.len() + 50_000 * (m.suspensions.len() + m.adds.len()
            + m.omits.len()),
        SCALE as int,
    )
}

/// How close the complexity of a chord comes to the preference: one minus
/// the distance, not below zero.
pub open spec fn complexity_score(m: ChordModel, preference: int) -> int {
    greatest(SCALE - distance(chord_complexity(m), preference), 0)
}

/// The number of alterations that count for a genre: at most a hundred.
pub open spec fn counted_alterations(m: ChordModel) -> int {
    least(m.alterations.len() as int, 100)
}

/// How well a chord suits a genre, by its lowercase name. Jazz likes rich
/// chords and alterations, classical music likes neither, the blues likes
/// sevenths and the dominant, pop and rock like plain chords; any other
/// genre is indifferent.
pub open spec fn genre_fit(m: ChordModel, genre: Seq<char>) -> int {
    if genre == "pop"@ {
        if m.chord_type == 5 {
            900_000
        } else if m.chord_type == 7 {
            600_000
        } else {
            300_000
        }
    } else if genre == "jazz"@ {
        (if m.chord_type == 5 {
            400_000int
        } else if m.chord_type == 7 {
            800_000int
        } else if m.chord_type == 9 || m.chord_type == 11 || m.chord_type == 13 {
            900_000int
        } else {
            500_000int
        }) + 100_000 * counted_alterations(m)
    } else if genre == "classical"@ {
        (if m.chord_type == 5 {
            800_000int
        } else if m.chord_type == 7 {
            700_000int
        } else {
            500_000int
        }) - 50_000 * counted_alterations(m)
    } else if genre == "blues"@ {
        (if m.chord_type == 7 {
            900_000int
        } else if m.chord_type == 5 {
            600_000int
        } else {
            400_000int
        }) + if m.root == 5 {
            100_000int
        } else {
            0int
        }
    } else if genre == "rock"@ {
        if m.chord_type == 5 {
            800_000
        } else if m.chord_type == 7 {
            500_000
        } else {
            300_000
        }
    } else {
        500_000
    }
}

/// A genre and how much it weighs.
pub struct GenreModel {
    pub genre: Seq<char>,
    pub weight: int,
}

/// The sum, over the first `upto` genres with a positive weight, of the fit
/// times the weight.
pub open spec fn genre_fit_total(m: ChordModel, genres: Seq<GenreModel>, upto: nat) -> int
    decreases upto,
{
    if upto == 0 || upto > genres.len() {
        0
    } else {
        genre_fit_total(m, genres, (upto - 1) as nat) + if genres[upto - 1].weight > 0 {
            genre_fit(m, lowercase_of(genres[upto - 1].genre)) * genres[upto - 1].weight
        } else {
            0
        }
    }
}

/// The sum of the positive weights among the first `upto` genres.
pub open spec fn genre_weight_total(genres: Seq<GenreModel>, upto: nat) -> int
    decreases upto,
{
    if upto == 0 || upto > genres.len() {
        0
    } else {
        genre_weight_total(genres, (upto - 1) as nat) + if genres[upto - 1].weight > 0 {
            genres[upto - 1].weight
        } else {
            0
        }
    }
}

/// The weighted mean of the fits of a chord over the genres with a positive
/// weight, between 0 and 1; one half where no genre has a positive weight.
pub open spec fn genre_score(m: ChordModel, genres: Seq<GenreModel>) -> int {
    let weight = genre_weight_total(genres, genres.len());
    if weight > 0 {
        clamp(genre_fit_total(m, genres, genres.len()) / weight, 0, SCALE as int)
    } else {
        500_000
    }
}

/// How well a chord fits a scale, from the degrees it occupies: the number
/// of degrees over seven, capped at one, less a tenth for each degree with
/// an accidental, between 0 and 1.
pub open spec fn compatibility_of(degrees: int, chromatic: int) -> int {
    clamp(least(scaled_ratio(degrees, 7), SCALE as int) - 100_000 * chromatic, 0, SCALE as int)
}

/// Whether a degree carries an accidental.
pub open spec fn is_chromatic(text: Seq<char>) -> bool {
    text.contains('#') || text.contains('b')
}

/// How many of the first `upto` degrees carry an accidental.
pub open spec fn chromatic_count(degrees: Seq<Seq<char>>, upto: nat) -> nat
    decreases upto,
{
    if upto == 0 || upto > degrees.len() {
        0
    } else {
        chromatic_count(degrees, (upto - 1) as nat) + if is_chromatic(degrees[upto - 1]) {
            1nat
        } else {
            0nat
        }
    }
}

/// How well a chord fits the scale: from the degrees that it occupies, or
/// three tenths where they cannot be worked out.
pub open spec fn scale_compatibility(m: ChordModel) -> int {
    match m.stable_degrees() {
        Some(degrees) => compatibility_of(
            degrees.len() as int,
            chromatic_count(degrees, degrees.len()) as int,
        ),
        None => 300_000,
    }
}

/// What a scorer is asked to take into account, as mathematical values.
pub struct ContextModel {
    pub has_scale: bool,
    pub position: int,
    pub target_valence: int,
    pub complexity_preference: int,
    pub genres: Seq<GenreModel>,
    pub avoid_repetition_within: nat,
    pub recent: Seq<ChordModel>,
}

/// The context score of a chord: one half, plus 0.3 of the scale
/// compatibility where a scale is given, 0.2 of the position score, 0.2 of
/// the valence score, 0.1 of the complexity score and, where genres are
/// given, 0.2 of the genre score; between 0 and 1.
pub open spec fn context_score(m: ChordModel, c: ContextModel) -> int {
    clamp(
        500_000 + (if c.has_scale {
            scaled_mul(scale_compatibility(m), 300_000)
        } else {
            0
        }) + scaled_mul(position_score(m, c.position), 200_000) + scaled_mul(
            valence_score(m, c.target_valence),
            200_000,
        ) + scaled_mul(complexity_score(m, c.complexity_preference), 100_000) + (if c.genres.len()
            > 0 {
            scaled_mul(genre_score(m, c.genres), 200_000)
        } else {
            0
        }),
        0,
        SCALE as int,
    )
}

// ---------------------------------------------------------------------------
// Theory
// ---------------------------------------------------------------------------
/// The steps between two roots, folded into one octave of seven degrees.
pub open spec fn root_movement(from: u8, to: u8) -> int {
    distance(to as int, from as int) % 7
}

/// The quality of the voice leading from one chord to the next: by the root
/// movement, with a bonus for the common cadences and for a type that stays
/// or gets simpler; one half where either is a rest.
pub open spec fn voice_leading_score(prev: ChordModel, m: ChordModel) -> int {
    if prev.is_rest || m.is_rest {
        500_000
    } else {
        let movement = root_movement(prev.root, m.root);
        let by_movement = if movement == 0 {
            300_000int
        } else if movement == 1 {
            900_000int
        } else if movement == 2 {
            800_000int
        } else if movement == 3 {
            600_000int
        } else if movement == 4 {
            700_000int
        } else if movement == 5 {
            500_000int
        } else {
            400_000int
        };
        let cadence = if (prev.root == 5 && m.root == 1) || (prev.root == 2 && m.root == 5) {
            200_000int
        } else if (prev.root == 4 && m.root == 5) || (prev.root == 1 && m.root == 6) {
            100_000int
        } else {
            0int
        };
        let by_type = if prev.chord_type == m.chord_type {
            100_000int
        } else if prev.chord_type > m.chord_type {
            50_000int
        } else {
            0int
        };
        least(by_movement + cadence + by_type, SCALE as int)
    }
}

/// The strength of the harmonic function of a degree.
pub open spec fn function_strength(root: u8) -> int {
    if root == 1 {
        900_000
    } else if root == 5 {
        800_000
    } else if root == 4 {
        700_000
    } else if root == 2 || root == 6 {
        600_000
    } else if root == 3 {
        400_000
    } else if root == 7 {
        500_000
    } else {
        300_000
    }
}

/// What the step from the previous root adds to the harmonic function.
pub open spec fn function_context(prev_root: u8, root: u8) -> int {
    if prev_root == 5 && root == 1 {
        300_000
    } else if (prev_root == 2 && root == 5) || (prev_root == 4 && root == 5) {
        200_000
    } else if (prev_root == 1 && root == 4) || (prev_root == 1 && root == 6) || (prev_root == 6
        && root == 4) {
        100_000
    } else if (prev_root == 1 && root == 2) || (prev_root == 1 && root == 3) {
        -100_000
    } else {
        0
    }
}

/// What the type of a chord adds to its harmonic function.
pub open spec fn function_type_bonus(m: ChordModel) -> int {
    if (m.root == 5 && m.chord_type == 7) || (m.root == 2 && m.chord_type == 7) {
        100_000
    } else if (m.root == 1 && m.chord_type == 5) || (m.root == 4 && m.chord_type == 5) {
        50_000
    } else {
        0
    }
}

/// The strength of the harmonic function of a chord after a pattern; one
/// half after an empty pattern.
pub open spec fn harmonic_function_score(m: ChordModel, pattern: Seq<ChordModel>) -> int {
    if pattern.len() == 0 {
        500_000
    } else {
        clamp(
            function_strength(m.root) + function_context(pattern.last().root, m.root)
                + function_type_bonus(m),
            0,
            SCALE as int,
        )
    }
}

/// How strongly a degree tends to resolve.
pub open spec fn resolution_tendency(m: ChordModel) -> int {
    if m.root == 5 {
        if m.chord_type == 7 {
            900_000
        } else {
            700_000
        }
    } else if m.root == 7 {
        800_000
    } else if m.root == 2 {
        600_000
    } else if m.root == 4 {
        400_000
    } else if m.root == 1 {
        100_000
    } else {
        300_000
    }
}

/// The factor by which the previous root raises the resolution tendency.
pub open spec fn resolution_context(prev_root: u8) -> int {
    if prev_root == 5 {
        1_200_000
    } else if prev_root == 7 || prev_root == 2 {
        1_100_000
    } else {
        1_000_000
    }
}

/// The factor by which the type of a chord raises its resolution tendency.
pub open spec fn resolution_type_factor(chord_type: u8) -> int {
    if chord_type == 7 {
        1_100_000
    } else if chord_type == 9 || chord_type == 11 || chord_type == 13 {
        1_200_000
    } else {
        1_000_000
    }
}

/// The resolution tendency of a chord after a pattern: the tendency of its
/// degree times the factors of the previous root, of its type and of its
/// alterations (a twentieth more for each), capped at one; one half after an
/// empty pattern.
pub open spec fn resolution_score(m: ChordModel, pattern: Seq<ChordModel>) -> int {
    if pattern.len() == 0 {
        500_000
    } else {
        least(
            scaled_mul(
                scaled_mul(
                    scaled_mul(resolution_tendency(m), resolution_context(pattern.last().root)),
                    resolution_type_factor(m.chord_type),
                ),
                (1_000_000 + 50_000 * m.alterations.len()) as int,
            ),
            SCALE as int,
        )
    }
}

/// The theory score of a chord after a pattern: one half, plus 0.4 of the
/// voice leading from the last chord of the pattern, 0.3 of the harmonic
/// function and 0.3 of the resolution tendency; between 0 and 1.
pub open spec fn theory_score(m: ChordModel, pattern: Seq<ChordModel>) -> int {
    clamp(
        500_000 + (if pattern.len() > 0 {
            scaled_mul(voice_leading_score(pattern.last(), m), 400_000)
        } else {
            0
        }) + scaled_mul(harmonic_function_score(m, pattern), 300_000) + scaled_mul(
            resolution_score(m, pattern),
            300_000,
        ),
        0,
        SCALE as int,
    )
}

// ---------------------------------------------------------------------------
// Combination
// ---------------------------------------------------------------------------
/// The weighted score: 0.4 of the frequency score, 0.35 of the context score
/// where context weighting is on, and 0.25 of the theory score.
pub open spec fn weighted_score(frequency: int, context: int, theory: int, weighting: bool) -> int {
    scaled_mul(frequency, 400_000) + (if weighting {
        scaled_mul(context, 350_000)
    } else {
        0
    }) + scaled_mul(theory, 250_000)
}

/// The confidence: the mean of the weighted score and the count over one
/// hundred, the latter capped at one.
pub open spec fn confidence(weighted: int, count: int) -> int {
    (weighted + frequency_confidence(count)) / 2
}

/// Where the window of the last `window` recent chords begins: at the
/// first of them where there are fewer.
pub open spec fn window_start(recent: Seq<ChordModel>, window: nat) -> int {
    if recent.len() >= window {
        recent.len() - window
    } else {
        0
    }
}

/// Whether a chord repeats one of the last `window` recent chords in root
/// and type. With fewer recent chords than the window all of them count.
pub open spec fn repeats_recent(m: ChordModel, recent: Seq<ChordModel>, window: nat) -> bool {
    exists|i: int|
        window_start(recent, window) <= i < recent.len() && (#[trigger] recent[i]).root == m.root
            && recent[i].chord_type == m.chord_type
}

/// With more chords behind the gap than before it, the weight is not lower
/// than with the two numbers exchanged.
pub proof fn lemma_forward_context_bonus(prev: int, next: int, total: int, relative: int)
    requires
        0 <= prev < next,
        0 <= total,
        0 <= relative,
    ensures
        magic_weight(prev, next, total, relative) >= magic_weight(next, prev, total, relative),
{
    let length = prev + next;
    let cm = context_match(prev, next, total);
    assert(cm == context_match(next, prev, total));
    let forward = context_bonus(prev, next);
    let backward = context_bonus(next, prev);
    assert(forward == length * 1_700_000);
    assert(backward == length * 1_000_000);
    assert(relative * backward <= relative * forward) by (nonlinear_arith)
        requires
            relative >= 0,
            length >= 0,
            forward == length * 1_700_000,
            backward == length * 1_000_000,
    ;
    vstd::arithmetic::div_mod::lemma_div_is_ordered(
        relative * backward,
        relative * forward,
        10_000_000_000,
    );
    let weak = statistical_strength(relative, backward);
    let strong = statistical_strength(relative, forward);
    assert(weak <= strong);
    lemma_context_match_positive(prev, next, total);
    assert(cm * weak <= cm * strong) by (nonlinear_arith)
        requires
            cm >= 0,
            weak <= strong,
    ;
    vstd::arithmetic::div_mod::lemma_div_is_ordered(cm * weak, cm * strong, SCALE as int);
}

/// The context match is not negative.
pub proof fn lemma_context_match_positive(prev: int, next: int, total: int)
    requires
        0 <= prev,
        0 <= next,
        0 <= total,
    ensures
        0 <= context_match(prev, next, total),
{
    if total > 0 {
        let rest = (total - (prev + next)) * SCALE;
        assert(rest <= total * SCALE) by (nonlinear_arith)
            requires
                rest == (total - (prev + next)) * SCALE,
                prev + next >= 0,
        ;
        vstd::arithmetic::div_mod::lemma_div_is_ordered(rest, total * SCALE, total);
        vstd::arithmetic::div_mod::lemma_div_multiples_vanish(SCALE as int, total);
        assert(total * SCALE == SCALE * total) by (nonlinear_arith);
    }
}

/// The context match lies between zero and one where the context fits in
/// the pattern.
pub proof fn lemma_context_match_bounds(prev: int, next: int, total: int)
    requires
        0 <= prev,
        0 <= next,
        0 <= total,
        total == 0 || prev + next <= total,
    ensures
        0 <= context_match(prev, next, total) <= SCALE,
{
    if total > 0 {
        let rest = total - (prev + next);
        crate::fixed::lemma_ratio_bound(rest, total);
    }
}

/// The weight of a candidate lies between zero and one where the relative
/// count is not negative and the context fits in the pattern.
pub proof fn lemma_magic_weight_bounds(prev: int, next: int, total: int, relative: int)
    requires
        0 <= prev,
        0 <= next,
        0 <= total,
        0 <= relative,
        total == 0 || prev + next <= total,
    ensures
        0 <= magic_weight(prev, next, total, relative) <= SCALE,
{
    lemma_context_match_bounds(prev, next, total);
    let cm = context_match(prev, next, total);
    let bonus = context_bonus(prev, next);
    assert(0 <= relative * bonus) by (nonlinear_arith)
        requires
            relative >= 0,
            bonus >= 0,
    ;
    vstd::arithmetic::div_mod::lemma_div_pos_is_pos(relative * bonus, 10_000_000_000);
    let strength = statistical_strength(relative, bonus);
    assert(0 <= strength <= SCALE);
    assert(0 <= cm * strength <= SCALE * SCALE) by (nonlinear_arith)
        requires
            0 <= cm <= SCALE,
            0 <= strength <= SCALE,
    ;
    vstd::arithmetic::div_mod::lemma_div_pos_is_pos(cm * strength, SCALE as int);
    vstd::arithmetic::div_mod::lemma_div_is_ordered(cm * strength, SCALE * SCALE, SCALE as int);
    vstd::arithmetic::div_mod::lemma_div_multiples_vanish(SCALE as int, SCALE as int);
}

} // verus!
