//! Chord theory: the scale degrees that a chord occupies, its quality, its
//! complexity.

use vstd::prelude::*;
use crate::chord::{Chord, ChordModel, BorrowedScale, BorrowedModel, is_chord_type};
use crate::constants::{UPPER_CASE_NUMERALS, LOWER_CASE_NUMERALS, figured_bass};
use crate::error::{ChordTheoryError, ChordTheoryResult};
use crate::fixed::{Fixed, clamp, capped_times};
use crate::lists::{TagList, ToneList, texts};
use crate::roman::{QualityType, RomanCase, RomanNumeralGraphic, GraphicModel, with_text};
use crate::scale::ScaleFingerprint;
use crate::text::{
    text_eq, decimal_text, decimal_digits, chars_of, string_of, is_alphabetic, char_is_alphabetic,
    char_to_lowercase, char_to_uppercase, char_lowercase_of, char_uppercase_of,
};

verus! {

/// The scale degrees of a chord, each with its accidental.
#[derive(Debug, PartialEq)]
pub struct ScaleDegreeResult {
    /// Scale degree numbers.
    pub sd_numbers: Vec<u8>,
    /// The accidental of each degree: empty, `b` or `#`.
    pub sd_accs: Vec<String>,
}

/// A tone of a chord: a scale degree and its accidental.
pub struct Tone {
    pub degree: u8,
    pub accidental: Seq<char>,
}

/// A tone while a chord is worked out.
struct ToneEntry {
    degree: u8,
    accidental: String,
}

impl View for ToneEntry {
    type V = Tone;

    closed spec fn view(&self) -> Tone {
        Tone { degree: self.degree, accidental: self.accidental@ }
    }
}

/// The tones of a sequence of entries.
spec fn entry_tones(s: Seq<ToneEntry>) -> Seq<Tone> {
    Seq::new(s.len(), |i: int| s[i]@)
}

impl ScaleDegreeResult {
    /// The tones that the two lists spell, pair by pair.
    pub open spec fn tones(self) -> Seq<Tone> {
        Seq::new(
            self.sd_numbers@.len(),
            |i: int| Tone { degree: self.sd_numbers@[i], accidental: self.sd_accs@[i]@ },
        )
    }
}

/// The degrees that a chord type stacks: 1, 3, 5 and so on in thirds.
pub open spec fn stacked_degrees(chord_type: u8) -> Seq<u8> {
    if chord_type == 5 {
        seq![1u8, 3u8, 5u8]
    } else if chord_type == 7 {
        seq![1u8, 3u8, 5u8, 7u8]
    } else if chord_type == 9 {
        seq![1u8, 3u8, 5u8, 7u8, 9u8]
    } else if chord_type == 11 {
        seq![1u8, 3u8, 5u8, 7u8, 9u8, 11u8]
    } else {
        seq![1u8, 3u8, 5u8, 7u8, 9u8, 11u8, 13u8]
    }
}

/// Natural tones on the given degrees.
pub open spec fn naturals(degrees: Seq<u8>) -> Seq<Tone> {
    Seq::new(degrees.len(), |i: int| Tone { degree: degrees[i], accidental: Seq::empty() })
}

/// The tones turned so that the tone at `k` comes first; unchanged where `k`
/// is 0 or not below the number of tones.
pub open spec fn rotated(s: Seq<Tone>, k: int) -> Seq<Tone> {
    if 0 < k < s.len() {
        s.subrange(k, s.len() as int) + s.subrange(0, k)
    } else {
        s
    }
}

/// The index of the first tone on this degree, or the number of tones.
pub open spec fn degree_index(s: Seq<Tone>, degree: u8, from: int) -> int
    decreases s.len() - from,
{
    if from < 0 || from >= s.len() {
        s.len() as int
    } else if s[from].degree == degree {
        from
    } else {
        degree_index(s, degree, from + 1)
    }
}

/// The index of the first tone above this degree, or the number of tones.
pub open spec fn above_index(s: Seq<Tone>, degree: u8, from: int) -> int
    decreases s.len() - from,
{
    if from < 0 || from >= s.len() {
        s.len() as int
    } else if s[from].degree > degree {
        from
    } else {
        above_index(s, degree, from + 1)
    }
}

/// The tones with each of the first `upto` added degrees appended as a
/// natural tone, unless a tone on that degree is there already.
pub open spec fn with_adds(s: Seq<Tone>, adds: Seq<u8>, upto: nat) -> Seq<Tone>
    decreases upto,
{
    if upto == 0 || upto > adds.len() {
        s
    } else {
        let before = with_adds(s, adds, (upto - 1) as nat);
        if degree_index(before, adds[upto - 1], 0) < before.len() {
            before
        } else {
            before.push(Tone { degree: adds[upto - 1], accidental: Seq::empty() })
        }
    }
}

/// Those of the first `upto` tones whose degree is not omitted.
pub open spec fn without_omits(s: Seq<Tone>, omits: Seq<u8>, upto: nat) -> Seq<Tone>
    decreases upto,
{
    if upto == 0 || upto > s.len() {
        Seq::empty()
    } else {
        let before = without_omits(s, omits, (upto - 1) as nat);
        if omits.contains(s[upto - 1].degree) {
            before
        } else {
            before.push(s[upto - 1])
        }
    }
}

/// The degree and the accidental that an alteration token sets.
pub open spec fn alteration_target(token: Seq<char>) -> Option<Tone> {
    if token == seq!['b', '5'] {
        Some(Tone { degree: 5, accidental: seq!['b'] })
    } else if token == seq!['#', '5'] {
        Some(Tone { degree: 5, accidental: seq!['#'] })
    } else if token == seq!['b', '9'] {
        Some(Tone { degree: 9, accidental: seq!['b'] })
    } else if token == seq!['#', '9'] {
        Some(Tone { degree: 9, accidental: seq!['#'] })
    } else if token == seq!['#', '1', '1'] {
        Some(Tone { degree: 11, accidental: seq!['#'] })
    } else if token == seq!['b', '1', '3'] {
        Some(Tone { degree: 13, accidental: seq!['b'] })
    } else {
        None
    }
}

/// The tones with one tone altered: the first tone on its degree takes its
/// accidental, or the tone is appended where there is none.
pub open spec fn altered(s: Seq<Tone>, t: Tone) -> Seq<Tone> {
    let i = degree_index(s, t.degree, 0);
    if i < s.len() {
        s.update(i, t)
    } else {
        s.push(t)
    }
}

/// The tones after the first `upto` alterations; `None` where one of them is
/// no alteration token.
pub open spec fn with_alterations(s: Seq<Tone>, alterations: Seq<Seq<char>>, upto: nat) -> Option<
    Seq<Tone>,
>
    decreases upto,
{
    if upto == 0 || upto > alterations.len() {
        Some(s)
    } else {
        match with_alterations(s, alterations, (upto - 1) as nat) {
            None => None,
            Some(before) => match alteration_target(alterations[upto - 1]) {
                None => None,
                Some(t) => Some(altered(before, t)),
            },
        }
    }
}

/// The tones with the third suspended: the first tone on degree 3 is taken
/// out, and a natural tone on the suspending degree is put in front of the
/// first tone above it, unless a tone on that degree is there already.
pub open spec fn suspended(s: Seq<Tone>, degree: u8) -> Seq<Tone> {
    let third = degree_index(s, 3, 0);
    let t = if third < s.len() {
        s.remove(third)
    } else {
        s
    };
    if degree_index(t, degree, 0) < t.len() {
        t
    } else {
        t.insert(above_index(t, degree, 0), Tone { degree, accidental: Seq::empty() })
    }
}

/// The tones after the first `upto` suspensions.
pub open spec fn with_suspensions(s: Seq<Tone>, suspensions: Seq<u8>, upto: nat) -> Seq<Tone>
    decreases upto,
{
    if upto == 0 || upto > suspensions.len() {
        s
    } else {
        suspended(with_suspensions(s, suspensions, (upto - 1) as nat), suspensions[upto - 1])
    }
}

impl ChordModel {
    /// The tones of the chord before alterations: the stacked thirds of its
    /// type, turned by the inversion, with the added tones and without the
    /// omitted ones.
    pub open spec fn plain_tones(self) -> Seq<Tone> {
        let stacked = rotated(naturals(stacked_degrees(self.chord_type)), self.inversion as int);
        let added = with_adds(stacked, self.adds, self.adds.len());
        without_omits(added, self.omits, added.len())
    }

    /// The tones of the chord relative to its root: the plain tones with the
    /// alterations and then the suspensions applied. A rest has none. `None`
    /// where an alteration is no alteration token.
    pub open spec fn relative_tones(self) -> Option<Seq<Tone>> {
        if self.is_rest {
            Some(Seq::empty())
        } else {
            match with_alterations(self.plain_tones(), self.alterations, self.alterations.len()) {
                None => None,
                Some(t) => Some(with_suspensions(t, self.suspensions, self.suspensions.len())),
            }
        }
    }
}

/// The target of an alteration token.
fn alteration_entry(token: &str) -> (r: Option<ToneEntry>)
    ensures
        r is Some <==> alteration_target(token@) is Some,
        r matches Some(e) ==> Some(e@) == alteration_target(token@),
{
    proof {
        reveal_strlit("b13");
        reveal_strlit("#11");
        reveal_strlit("#9");
        reveal_strlit("b9");
        reveal_strlit("#5");
        reveal_strlit("b5");
        reveal_strlit("b");
        reveal_strlit("#");
        assert("b13"@ =~= seq!['b', '1', '3']);
        assert("#11"@ =~= seq!['#', '1', '1']);
        assert("#9"@ =~= seq!['#', '9']);
        assert("b9"@ =~= seq!['b', '9']);
        assert("#5"@ =~= seq!['#', '5']);
        assert("b5"@ =~= seq!['b', '5']);
        assert("b"@ =~= seq!['b']);
        assert("#"@ =~= seq!['#']);
    }
    if text_eq(token, "b5") {
        Some(ToneEntry { degree: 5, accidental: String::from_str("b") })
    } else if text_eq(token, "#5") {
        Some(ToneEntry { degree: 5, accidental: String::from_str("#") })
    } else if text_eq(token, "b9") {
        Some(ToneEntry { degree: 9, accidental: String::from_str("b") })
    } else if text_eq(token, "#9") {
        Some(ToneEntry { degree: 9, accidental: String::from_str("#") })
    } else if text_eq(token, "#11") {
        Some(ToneEntry { degree: 11, accidental: String::from_str("#") })
    } else if text_eq(token, "b13") {
        Some(ToneEntry { degree: 13, accidental: String::from_str("b") })
    } else {
        None
    }
}

/// The index of the first entry on this degree.
fn find_degree(tones: &Vec<ToneEntry>, degree: u8) -> (r: usize)
    ensures
        r == degree_index(entry_tones(tones@), degree, 0),
        r <= tones@.len(),
{
    let mut i: usize = 0;
    while i < tones.len()
        invariant
            i <= tones@.len(),
            degree_index(entry_tones(tones@), degree, 0) == degree_index(
                entry_tones(tones@),
                degree,
                i as int,
            ),
        decreases tones@.len() - i,
    {
        if tones[i].degree == degree {
            return i;
        }
        i = i + 1;
    }
    i
}

/// The index of the first entry above this degree.
fn find_above(tones: &Vec<ToneEntry>, degree: u8) -> (r: usize)
    ensures
        r == above_index(entry_tones(tones@), degree, 0),
        r <= tones@.len(),
{
    let mut i: usize = 0;
    while i < tones.len()
        invariant
            i <= tones@.len(),
            above_index(entry_tones(tones@), degree, 0) == above_index(
                entry_tones(tones@),
                degree,
                i as int,
            ),
        decreases tones@.len() - i,
    {
        if tones[i].degree > degree {
            return i;
        }
        i = i + 1;
    }
    i
}

/// Alters one tone of the list.
fn apply_alteration(tones: &mut Vec<ToneEntry>, alteration: &str) -> (r: ChordTheoryResult<()>)
    ensures
        r is Ok <==> alteration_target(alteration@) is Some,
        r is Ok ==> entry_tones(final(tones)@) == altered(
            entry_tones(old(tones)@),
            alteration_target(alteration@)->0,
        ),
        r matches Err(e) ==> final(tones)@ == old(tones)@ && e
            == (ChordTheoryError::InvalidAlteration { alteration: e->alteration })
            && e->alteration@ == alteration@,
{
    let entry = match alteration_entry(alteration) {
        Some(e) => e,
        None => {
            return Err(
                ChordTheoryError::InvalidAlteration { alteration: String::from_str(alteration) },
            );
        },
    };
    let ghost before = entry_tones(tones@);
    let i = find_degree(tones, entry.degree);
    if i < tones.len() {
        tones[i] = entry;
        assert(entry_tones(tones@) =~= before.update(i as int, entry@));
    } else {
        tones.push(entry);
        assert(entry_tones(tones@) =~= before.push(entry@));
    }
    Ok(())
}

/// Suspends the third of the list by the given degree.
fn apply_suspension(tones: &mut Vec<ToneEntry>, suspension: u8)
    ensures
        entry_tones(final(tones)@) == suspended(entry_tones(old(tones)@), suspension),
{
    let ghost before = entry_tones(tones@);
    let third = find_degree(tones, 3);
    if third < tones.len() {
        tones.remove(third);
        assert(entry_tones(tones@) =~= before.remove(third as int));
    }
    let ghost middle = entry_tones(tones@);
    if find_degree(tones, suspension) >= tones.len() {
        let at = find_above(tones, suspension);
        tones.insert(at, ToneEntry { degree: suspension, accidental: String::new() });
        assert(entry_tones(tones@) =~= middle.insert(
            at as int,
            Tone { degree: suspension, accidental: Seq::empty() },
        ));
    }
}

/// The stacked thirds of a chord type as natural tones.
fn stacked_entries(chord_type: u8) -> (v: Vec<ToneEntry>)
    requires
        is_chord_type(chord_type),
    ensures
        entry_tones(v@) == naturals(stacked_degrees(chord_type)),
{
    let mut v: Vec<ToneEntry> = Vec::new();
    let mut degree: u8 = 1;
    while degree <= chord_type
        invariant
            is_chord_type(chord_type),
            degree % 2 == 1,
            1 <= degree <= chord_type + 2,
            v@.len() == (degree - 1) / 2,
            forall|i: int|
                0 <= i < v@.len() ==> (#[trigger] v@[i])@ == (Tone {
                    degree: (2 * i + 1) as u8,
                    accidental: Seq::empty(),
                }),
        decreases chord_type + 2 - degree,
    {
        v.push(ToneEntry { degree, accidental: String::new() });
        degree = degree + 2;
    }
    assert(entry_tones(v@) =~= naturals(stacked_degrees(chord_type)));
    v
}

/// The tones of a chord relative to its root. A rest has none. It is refused
/// for a chord type outside 5, 7, 9, 11, 13 and for an alteration that is no
/// alteration token.
pub fn get_relative_scale_degrees(chord: &Chord) -> (r: ChordTheoryResult<ScaleDegreeResult>)
    ensures
        r is Ok <==> chord.is_rest || (is_chord_type(chord.chord_type)
            && chord@.relative_tones() is Some),
        r matches Ok(found) ==> found.sd_numbers@.len() == found.sd_accs@.len() && found.tones()
            == chord@.relative_tones()->0,
        r matches Err(e) ==> (if !is_chord_type(chord.chord_type) {
            e == (ChordTheoryError::InvalidChordType { chord_type: chord.chord_type })
        } else {
            e is InvalidAlteration
        }),
{
    if chord.is_rest {
        let found = ScaleDegreeResult { sd_numbers: Vec::new(), sd_accs: Vec::new() };
        assert(found.tones() =~= Seq::<Tone>::empty());
        return Ok(found);
    }
    let t = chord.chord_type;
    if !(t == 5 || t == 7 || t == 9 || t == 11 || t == 13) {
        return Err(ChordTheoryError::InvalidChordType { chord_type: chord.chord_type });
    }
    let stacked = stacked_entries(chord.chord_type);
    // turn by the inversion
    let mut tones: Vec<ToneEntry> = Vec::new();
    let n = stacked.len();
    let k: usize = if chord.inversion > 0 && (chord.inversion as usize) < n {
        chord.inversion as usize
    } else {
        0
    };
    let ghost turned = rotated(entry_tones(stacked@), chord.inversion as int);
    assert(n == naturals(stacked_degrees(chord.chord_type)).len());
    let mut i: usize = 0;
    while i < n
        invariant
            i <= n,
            n == stacked@.len(),
            n <= 7,
            k < n || n == 0,
            tones@.len() == i,
            forall|j: int|
                0 <= j < i ==> (#[trigger] tones@[j])@ == stacked@[if j + k < n {
                    j + k
                } else {
                    j + k - n
                }]@,
        decreases n - i,
    {
        let from = if i + k < n {
            i + k
        } else {
            i + k - n
        };
        let e = &stacked[from];
        tones.push(ToneEntry { degree: e.degree, accidental: e.accidental.clone() });
        i = i + 1;
    }
    assert(entry_tones(tones@) =~= turned);
    // append the added tones
    let adds = chord.adds.as_slice();
    let mut a: usize = 0;
    while a < adds.len()
        invariant
            a <= adds@.len(),
            adds@ == chord@.adds,
            entry_tones(tones@) == with_adds(turned, chord@.adds, a as nat),
        decreases adds@.len() - a,
    {
        let ghost before = entry_tones(tones@);
        if find_degree(&tones, adds[a]) >= tones.len() {
            tones.push(ToneEntry { degree: adds[a], accidental: String::new() });
            assert(entry_tones(tones@) =~= before.push(
                Tone { degree: adds@[a as int], accidental: Seq::empty() },
            ));
        }
        a = a + 1;
    }
    // leave out the omitted tones
    let ghost added = entry_tones(tones@);
    let mut kept: Vec<ToneEntry> = Vec::new();
    let m = tones.len();
    let mut j: usize = 0;
    assert(entry_tones(kept@) =~= without_omits(added, chord@.omits, 0));
    while j < m
        invariant
            j <= m,
            m == tones@.len(),
            added == entry_tones(tones@),
            entry_tones(kept@) == without_omits(added, chord@.omits, j as nat),
        decreases m - j,
    {
        let ghost before = entry_tones(kept@);
        let e = &tones[j];
        assert(added[j as int] == e@);
        if !chord.omits.contains(e.degree) {
            kept.push(ToneEntry { degree: e.degree, accidental: e.accidental.clone() });
            assert(entry_tones(kept@) =~= before.push(added[j as int]));
        }
        j = j + 1;
    }
    assert(entry_tones(kept@) == chord@.plain_tones());
    // apply the alterations
    let ghost plain = entry_tones(kept@);
    let count = chord.alterations.len();
    let mut x: usize = 0;
    while x < count
        invariant
            x <= count,
            count == chord@.alterations.len(),
            !chord.is_rest,
            is_chord_type(chord.chord_type),
            plain == chord@.plain_tones(),
            with_alterations(plain, chord@.alterations, x as nat) == Some(entry_tones(kept@)),
        decreases count - x,
    {
        match apply_alteration(&mut kept, chord.alterations.get(x).as_str()) {
            Ok(()) => {},
            Err(e) => {
                proof {
                    assert(alteration_target(chord@.alterations[x as int]) is None);
                    assert(with_alterations(plain, chord@.alterations, (x + 1) as nat) is None);
                    lemma_alterations_fail(plain, chord@.alterations, (x + 1) as nat);
                }
                return Err(e);
            },
        }
        x = x + 1;
    }
    // apply the suspensions
    let ghost altered_tones = entry_tones(kept@);
    let sus = chord.suspensions.as_slice();
    let mut s: usize = 0;
    while s < sus.len()
        invariant
            s <= sus@.len(),
            sus@ == chord@.suspensions,
            entry_tones(kept@) == with_suspensions(altered_tones, chord@.suspensions, s as nat),
        decreases sus@.len() - s,
    {
        apply_suspension(&mut kept, sus[s]);
        s = s + 1;
    }
    // split into the two lists
    let mut numbers: Vec<u8> = Vec::new();
    let mut accs: Vec<String> = Vec::new();
    let mut y: usize = 0;
    while y < kept.len()
        invariant
            y <= kept@.len(),
            numbers@.len() == y,
            accs@.len() == y,
            forall|q: int| 0 <= q < y ==> numbers@[q] == kept@[q].degree,
            forall|q: int| 0 <= q < y ==> accs@[q]@ == kept@[q].accidental@,
        decreases kept@.len() - y,
    {
        numbers.push(kept[y].degree);
        accs.push(kept[y].accidental.clone());
        y = y + 1;
    }
    let found = ScaleDegreeResult { sd_numbers: numbers, sd_accs: accs };
    assert(found.tones() =~= entry_tones(kept@));
    Ok(found)
}

/// Once an alteration fails, the alterations as a whole fail.
proof fn lemma_alterations_fail(s: Seq<Tone>, alterations: Seq<Seq<char>>, upto: nat)
    requires
        upto <= alterations.len(),
        with_alterations(s, alterations, upto) is None,
    ensures
        with_alterations(s, alterations, alterations.len()) is None,
    decreases alterations.len() - upto,
{
    if upto < alterations.len() {
        lemma_alterations_fail(s, alterations, upto + 1);
    }
}

/// The degree of the scale that a degree of the chord falls on, for a chord
/// on the given root.
pub open spec fn absolute_degree(degree: u8, root: u8) -> int {
    ((degree + root + 5) % 7) + 1
}

/// The accidental of a tone of a borrowed chord: the third of a chord
/// borrowed from `harmonic_minor` is flat; every other tone keeps its own.
pub open spec fn borrowed_accidental(
    degree: u8,
    accidental: Seq<char>,
    borrowed: Option<BorrowedModel>,
) -> Seq<char> {
    match borrowed {
        Some(BorrowedModel::Named(name)) => if name == "harmonic_minor"@ && degree == 3 {
            seq!['b']
        } else {
            accidental
        },
        _ => accidental,
    }
}

/// Whether an applied chord raises this tone: the seventh of a chord applied
/// to the fifth degree.
pub open spec fn raised_by_applied(degree: u8, applied: u8) -> bool {
    degree == 7 && applied == 5
}

impl ChordModel {
    /// A tone of the chord as a degree of the scale: the accidental, then the
    /// number. For an applied chord the degree is counted from the degree
    /// that the chord is applied to, and a raised tone is written with `#`.
    pub open spec fn stable_text(self, t: Tone) -> Seq<char> {
        let own = absolute_degree(t.degree, self.root);
        if self.applied != 0 {
            let moved = ((own + self.applied + 5) % 7) + 1;
            if raised_by_applied(t.degree, self.applied) {
                seq!['#'] + decimal_digits(moved as nat)
            } else {
                borrowed_accidental(t.degree, t.accidental, self.borrowed) + decimal_digits(
                    moved as nat,
                )
            }
        } else {
            borrowed_accidental(t.degree, t.accidental, self.borrowed) + decimal_digits(own as nat)
        }
    }

    /// Each of the given tones as a degree of the scale.
    pub open spec fn stable_texts(self, tones: Seq<Tone>) -> Seq<Seq<char>> {
        Seq::new(tones.len(), |i: int| self.stable_text(tones[i]))
    }

    /// The degrees of the scale that the chord occupies; `None` where they
    /// cannot be worked out: the chord is no rest, and its type is outside 5,
    /// 7, 9, 11, 13 or one of its alterations is no alteration token.
    pub open spec fn stable_degrees(self) -> Option<Seq<Seq<char>>> {
        if self.is_rest {
            Some(Seq::empty())
        } else if !is_chord_type(self.chord_type) {
            None
        } else {
            match self.relative_tones() {
                Some(tones) => Some(self.stable_texts(tones)),
                None => None,
            }
        }
    }

    /// The complexity of the chord in millionths, from 0 to 10: 1 for a
    /// triad, 2 for a seventh, 3 beyond; half a point for each inversion step
    /// and each alteration; 1 for an applied chord; 1.5 for a borrowed one;
    /// 0.3 for each suspension; 0.4 for each omitted tone. A rest has 0.
    pub open spec fn complexity(self) -> int {
        if self.is_rest {
            0
        } else {
            clamp(
                (if self.chord_type == 5 {
                    1_000_000int
                } else if self.chord_type == 7 {
                    2_000_000int
                } else {
                    3_000_000int
                }) + self.inversion * 500_000 + self.alterations.len() * 500_000 + (if self.applied
                    != 0 {
                    1_000_000int
                } else {
                    0int
                }) + (if self.borrowed is Some {
                    1_500_000int
                } else {
                    0int
                }) + self.suspensions.len() * 300_000 + self.omits.len() * 400_000,
                0,
                10_000_000,
            )
        }
    }

    /// Whether a tritone substitution can stand for the chord: an applied
    /// seventh chord, the seventh chord on the fifth degree of the scale
    /// `major`, or the seventh chord on the fifth degree borrowed from a
    /// scale named `major`.
    pub open spec fn tritone_substitutable(self, scale_name: Seq<char>) -> bool {
        ||| self.applied != 0 && self.chord_type == 7
        ||| self.root == 5 && self.chord_type == 7 && scale_name == "major"@
        ||| self.borrowed matches Some(b) && self.root == 5 && self.chord_type == 7 && b.name()
            == "major"@
    }
}

/// The tones given by two lists, a missing accidental counting as none.
pub open spec fn listed_tones(degrees: Seq<u8>, accidentals: Seq<String>) -> Seq<Tone> {
    Seq::new(
        degrees.len(),
        |i: int|
            Tone {
                degree: degrees[i],
                accidental: if i < accidentals.len() {
                    accidentals[i]@
                } else {
                    Seq::empty()
                },
            },
    )
}

/// Whether an applied chord raises this tone.
pub fn is_applied_chromatic_alteration(degree: u8, applied: u8) -> (b: bool)
    ensures
        b == raised_by_applied(degree, applied),
{
    degree == 7 && applied == 5
}

/// The accidental of a tone of a borrowed chord.
pub fn apply_borrowed_alteration(
    degree: u8,
    current_accidental: &str,
    borrowed: &BorrowedScale,
    _original_scale: &ScaleFingerprint,
) -> (r: ChordTheoryResult<String>)
    ensures
        r matches Ok(a) && a@ == borrowed_accidental(degree, current_accidental@, Some(borrowed@)),
{
    proof {
        reveal_strlit("b");
        assert("b"@ =~= seq!['b']);
    }
    match borrowed {
        BorrowedScale::Named(scale_name) => {
            if text_eq(scale_name.as_str(), "harmonic_minor") && degree == 3 {
                Ok(String::from_str("b"))
            } else {
                Ok(String::from_str(current_accidental))
            }
        },
        BorrowedScale::ScaleType(_) => Ok(String::from_str(current_accidental)),
        BorrowedScale::Numeric(_) => Ok(String::from_str(current_accidental)),
    }
}

/// The tones of two lists as degrees of the scale, for the given chord.
pub fn rel_scale_degree_to_abs_scale_degree(
    scale_degrees: &[u8],
    accidentals: &[String],
    chord: &Chord,
    scale_fingerprint: &ScaleFingerprint,
) -> (r: ChordTheoryResult<Vec<String>>)
    ensures
        r matches Ok(v) && texts(v@) == chord@.stable_texts(
            listed_tones(scale_degrees@, accidentals@),
        ),
{
    proof {
        reveal_strlit("#");
        assert("#"@ =~= seq!['#']);
    }
    let ghost tones = listed_tones(scale_degrees@, accidentals@);
    let mut result: Vec<String> = Vec::new();
    let mut i: usize = 0;
    while i < scale_degrees.len()
        invariant
            i <= scale_degrees@.len(),
            tones == listed_tones(scale_degrees@, accidentals@),
            result@.len() == i,
            "#"@ == seq!['#'],
            forall|j: int| 0 <= j < i ==> (#[trigger] result@[j])@ == chord@.stable_text(tones[j]),
        decreases scale_degrees@.len() - i,
    {
        let degree = scale_degrees[i];
        let accidental: &str = if i < accidentals.len() {
            accidentals[i].as_str()
        } else {
            ""
        };
        proof {
            reveal_strlit("");
            assert(""@ =~= Seq::<char>::empty());
            assert(tones[i as int].degree == degree);
            assert(tones[i as int].accidental == accidental@);
        }
        let own: u32 = ((degree as u32 + chord.root as u32 + 5) % 7) + 1;
        let mut shown: u32 = own;
        let mut raised = false;
        if chord.applied != 0 {
            shown = ((own + chord.applied as u32 + 5) % 7) + 1;
            raised = is_applied_chromatic_alteration(degree, chord.applied);
        }
        let mut text = if raised {
            String::from_str("#")
        } else {
            match &chord.borrowed {
                Some(borrowed) => {
                    match apply_borrowed_alteration(degree, accidental, borrowed, scale_fingerprint) {
                        Ok(a) => a,
                        Err(e) => {
                            return Err(e);
                        },
                    }
                },
                None => String::from_str(accidental),
            }
        };
        let digits = decimal_text(shown as u64);
        text.append(digits.as_str());
        result.push(text);
        i = i + 1;
    }
    assert(texts(result@) =~= chord@.stable_texts(tones));
    Ok(result)
}

/// The tones of a chord as degrees of the scale. A rest has none. It is
/// refused for a chord type outside 5, 7, 9, 11, 13 and for an alteration
/// that is no alteration token.
pub fn get_stable_scale_degrees(chord: &Chord, scale_fingerprint: &ScaleFingerprint) -> (r:
    ChordTheoryResult<Vec<String>>)
    ensures
        r is Ok <==> chord@.stable_degrees() is Some,
        r matches Ok(v) ==> Some(texts(v@)) == chord@.stable_degrees(),
{
    if chord.is_rest {
        let v: Vec<String> = Vec::new();
        assert(texts(v@) =~= chord@.stable_texts(Seq::<Tone>::empty()));
        return Ok(v);
    }
    let relative = match get_relative_scale_degrees(chord) {
        Ok(found) => found,
        Err(e) => {
            return Err(e);
        },
    };
    assert(listed_tones(relative.sd_numbers@, relative.sd_accs@) =~= relative.tones());
    rel_scale_degree_to_abs_scale_degree(
        relative.sd_numbers.as_slice(),
        relative.sd_accs.as_slice(),
        chord,
        scale_fingerprint,
    )
}

/// The complexity of a chord, from 0 to 10.
pub fn get_chord_complexity(chord: &Chord, _scale_name: &str) -> (r: ChordTheoryResult<Fixed>)
    ensures
        r matches Ok(c) && c.value() == chord@.complexity(),
{
    if chord.is_rest {
        return Ok(Fixed { micros: 0 });
    }
    let bound: i128 = 10_000_000;
    let base: i128 = if chord.chord_type == 5 {
        1_000_000
    } else if chord.chord_type == 7 {
        2_000_000
    } else {
        3_000_000
    };
    let steps: i128 = (chord.inversion as i128) * 500_000;
    let altered = capped_times(chord.alterations.len(), 500_000, bound);
    let applied: i128 = if chord.applied != 0 {
        1_000_000
    } else {
        0
    };
    let borrowed: i128 = if chord.borrowed.is_some() {
        1_500_000
    } else {
        0
    };
    let held = capped_times(chord.suspensions.len(), 300_000, bound);
    let left = capped_times(chord.omits.len(), 400_000, bound);
    let total: i128 = base + steps + altered + applied + borrowed + held + left;
    let capped: i128 = if total > bound {
        bound
    } else {
        total
    };
    Ok(Fixed { micros: capped as i64 })
}

/// Whether a tritone substitution can stand for the chord.
pub fn is_valid_tri_sub(chord: &Chord, scale_name: &str) -> (b: bool)
    ensures
        b == chord@.tritone_substitutable(scale_name@),
{
    if chord.applied != 0 && chord.chord_type == 7 {
        return true;
    }
    if chord.root == 5 && chord.chord_type == 7 && text_eq(scale_name, "major") {
        return true;
    }
    match &chord.borrowed {
        Some(borrowed) => {
            if chord.root == 5 && chord.chord_type == 7 {
                let name = borrowed.scale_name();
                text_eq(name.as_str(), "major")
            } else {
                false
            }
        },
        None => false,
    }
}

/// The quality of the triad on a degree of the major scale.
pub open spec fn degree_quality(degree: u8) -> Option<QualityType> {
    if degree == 1 || degree == 4 || degree == 5 {
        Some(QualityType::Major)
    } else if degree == 2 || degree == 3 || degree == 6 {
        Some(QualityType::Minor)
    } else if degree == 7 {
        Some(QualityType::Diminished)
    } else {
        None
    }
}

/// The quality of the triad on a degree: major on 1, 4 and 5, minor on 2, 3
/// and 6, diminished on 7. Any other degree is refused.
pub fn get_scale_degree_quality(degree: u8, _scale: &ScaleFingerprint) -> (r: ChordTheoryResult<
    QualityType,
>)
    ensures
        r is Ok <==> 1 <= degree <= 7,
        r matches Ok(q) ==> Some(q) == degree_quality(degree),
        r matches Err(e) ==> e == (ChordTheoryError::ScaleDegreeOutOfRange { degree }),
{
    match degree {
        1 | 4 | 5 => Ok(QualityType::Major),
        2 | 3 | 6 => Ok(QualityType::Minor),
        7 => Ok(QualityType::Diminished),
        _ => Err(ChordTheoryError::ScaleDegreeOutOfRange { degree }),
    }
}

/// Whether the seventh chord on this root has a major seventh: on 1 and on 4.
pub fn is_major_seventh_in_scale(chord: &Chord, _scale: &ScaleFingerprint) -> (b: bool)
    ensures
        b == (chord.root == 1 || chord.root == 4),
{
    chord.root == 1 || chord.root == 4
}

impl ChordModel {
    /// The quality of the chord: a flat fifth makes it half diminished (a
    /// seventh chord) or diminished; a sharp fifth makes it augmented; a
    /// seventh chord on 1 or 4 is a major seventh; any other chord has the
    /// quality of the triad on its root. `None` for a root outside 1..=7
    /// where the root decides.
    pub open spec fn quality(self) -> Option<QualityType> {
        if self.alterations.contains(seq!['b', '5']) {
            if self.chord_type == 7 {
                Some(QualityType::HalfDiminished)
            } else {
                Some(QualityType::Diminished)
            }
        } else if self.alterations.contains(seq!['#', '5']) {
            Some(QualityType::Augmented)
        } else if self.chord_type == 7 && (self.root == 1 || self.root == 4) {
            Some(QualityType::MajorSeventh)
        } else {
            degree_quality(self.root)
        }
    }
}

/// The quality of a chord.
pub fn determine_chord_quality(chord: &Chord, scale_fingerprint: &ScaleFingerprint) -> (r:
    ChordTheoryResult<QualityType>)
    ensures
        r is Ok <==> chord@.quality() is Some,
        r matches Ok(q) ==> Some(q) == chord@.quality(),
        r matches Err(e) ==> e == (ChordTheoryError::ScaleDegreeOutOfRange { degree: chord.root }),
{
    proof {
        reveal_strlit("b5");
        reveal_strlit("#5");
        assert("b5"@ =~= seq!['b', '5']);
        assert("#5"@ =~= seq!['#', '5']);
    }
    if chord.alterations.contains("b5") {
        if chord.chord_type == 7 {
            return Ok(QualityType::HalfDiminished);
        } else {
            return Ok(QualityType::Diminished);
        }
    }
    if chord.alterations.contains("#5") {
        return Ok(QualityType::Augmented);
    }
    if chord.chord_type == 7 {
        if is_major_seventh_in_scale(chord, scale_fingerprint) {
            return Ok(QualityType::MajorSeventh);
        }
    }
    get_scale_degree_quality(chord.root, scale_fingerprint)
}

/// The Roman numeral of a degree from 1 to 7, in the given case.
pub fn get_roman_numeral_for_degree(degree: u8, case: RomanCase) -> (r: ChordTheoryResult<String>)
    ensures
        r is Ok <==> 1 <= degree <= 7,
        r matches Ok(s) ==> s@ == match case {
            RomanCase::Upper => UPPER_CASE_NUMERALS@[degree - 1]@,
            RomanCase::Lower => LOWER_CASE_NUMERALS@[degree - 1]@,
        },
        r matches Err(e) ==> e == (ChordTheoryError::ScaleDegreeOutOfRange { degree }),
{
    if degree == 0 || degree > 7 {
        return Err(ChordTheoryError::ScaleDegreeOutOfRange { degree });
    }
    let index = (degree - 1) as usize;
    match case {
        RomanCase::Upper => Ok(String::from_str(UPPER_CASE_NUMERALS[index])),
        RomanCase::Lower => Ok(String::from_str(LOWER_CASE_NUMERALS[index])),
    }
}

/// The figured bass of a chord: the figure of its type at its inversion, or
/// nothing where the type has no figure for that inversion.
pub fn get_figured_bass_notation(chord: &Chord) -> (r: ChordTheoryResult<String>)
    ensures
        r matches Ok(s) && s@ == match crate::constants::figures_of(chord.chord_type) {
            Some(figures) => if chord.inversion < figures.len() {
                figures[chord.inversion as int]
            } else {
                Seq::empty()
            },
            None => Seq::empty(),
        },
{
    match figured_bass(chord.chord_type) {
        Some(inversions) => {
            let index = chord.inversion as usize;
            if index < inversions.len() {
                assert(crate::constants::str_views(inversions@)[index as int]
                    == inversions@[index as int]@);
                Ok(String::from_str(inversions[index]))
            } else {
                Ok(String::new())
            }
        },
        None => Ok(String::new()),
    }
}

/// The first character of a text in another case, where it is alphabetic and
/// has a form in that case; the `mapped` characters are what the case mapping
/// gives for it.
pub open spec fn recased_first(c: char, mapped: Seq<char>) -> char {
    if char_is_alphabetic(c) && mapped.len() > 0 {
        mapped[0]
    } else {
        c
    }
}

/// A note name with its letter in lower case: the first character is mapped
/// if it is alphabetic, the rest is kept.
pub fn chord_letter_to_lower_case(note_string: &str) -> (r: String)
    ensures
        r@ == if note_string@.len() == 0 {
            Seq::<char>::empty()
        } else {
            note_string@.update(
                0,
                recased_first(note_string@[0], char_lowercase_of(note_string@[0])),
            )
        },
{
    let mut chars = chars_of(note_string);
    if chars.len() == 0 {
        return String::new();
    }
    let first = chars[0];
    if is_alphabetic(first) {
        let mapped = char_to_lowercase(first);
        if mapped.len() > 0 {
            chars[0] = mapped[0];
        }
    }
    string_of(&chars)
}

/// A note name with its letter in upper case: the first character is mapped
/// if it is alphabetic, the rest is kept.
pub fn chord_letter_to_upper_case(note_string: &str) -> (r: String)
    ensures
        r@ == if note_string@.len() == 0 {
            Seq::<char>::empty()
        } else {
            note_string@.update(
                0,
                recased_first(note_string@[0], char_uppercase_of(note_string@[0])),
            )
        },
{
    let mut chars = chars_of(note_string);
    if chars.len() == 0 {
        return String::new();
    }
    let first = chars[0];
    if is_alphabetic(first) {
        let mapped = char_to_uppercase(first);
        if mapped.len() > 0 {
            chars[0] = mapped[0];
        }
    }
    string_of(&chars)
}

/// The figure of a chord type at an inversion; nothing where the type has
/// no figure for the inversion.
pub open spec fn figure_text(chord_type: u8, inversion: u8) -> Seq<char> {
    match crate::constants::figures_of(chord_type) {
        Some(figures) => if inversion < figures.len() {
            figures[inversion as int]
        } else {
            Seq::empty()
        },
        None => Seq::empty(),
    }
}

/// The first `upto` texts of a list, each once, in the order in which they first come.
pub open spec fn each_once(list: Seq<Seq<char>>, upto: int) -> Seq<Seq<char>>
    decreases upto,
{
    if upto <= 0 || upto > list.len() {
        Seq::empty()
    } else {
        with_text(each_once(list, upto - 1), list[upto - 1])
    }
}

/// Each tone as a text: the label and the tone in decimal.
pub open spec fn labelled(label: Seq<char>, tones: Seq<u8>) -> Seq<Seq<char>> {
    Seq::new(tones.len(), |i: int| label + decimal_digits(tones[i] as nat))
}

impl ChordModel {
    /// The symbol of the chord in Roman numerals: the numeral of the root in
    /// the case of the quality, and the chord type behind it unless the
    /// chord is a triad.
    pub open spec fn numeral_symbol(self, quality: QualityType) -> Seq<char> {
        (match quality.case_of() {
            RomanCase::Upper => UPPER_CASE_NUMERALS@[self.root - 1]@,
            RomanCase::Lower => LOWER_CASE_NUMERALS@[self.root - 1]@,
        }) + (if self.chord_type != 5 {
            decimal_digits(self.chord_type as nat)
        } else {
            Seq::empty()
        })
    }

    /// The degree that keeps the chord from being written in Roman
    /// numerals: its root, where the quality or the numeral cannot be had
    /// for it, else the degree it is applied to, where that is above 7.
    pub open spec fn unwritable_degree(self) -> Option<u8> {
        if self.is_rest {
            None
        } else if self.quality() is None || !(1 <= self.root <= 7) {
            Some(self.root)
        } else if self.applied > 7 {
            Some(self.applied)
        } else {
            None
        }
    }

    /// The parts of the chord's symbol in Roman numerals. A rest is `REST`.
    pub open spec fn graphic(self) -> GraphicModel {
        if self.is_rest {
            GraphicModel::plain("REST"@)
        } else {
            GraphicModel {
                symbol: self.numeral_symbol(self.quality()->0),
                figured_bass: figure_text(self.chord_type, self.inversion),
                quality: self.quality()->0.symbol_of(),
                applied: if self.applied != 0 {
                    "/"@ + UPPER_CASE_NUMERALS@[self.applied - 1]@
                } else {
                    Seq::empty()
                },
                borrowed: match self.borrowed {
                    Some(scale) => scale.name(),
                    None => Seq::empty(),
                },
                alterations: each_once(self.alterations, self.alterations.len() as int),
                suspensions: each_once(
                    labelled("sus"@, self.suspensions),
                    self.suspensions.len() as int,
                ),
                adds: each_once(labelled("add"@, self.adds), self.adds.len() as int),
                omits: each_once(labelled("omit"@, self.omits), self.omits.len() as int),
            }
        }
    }
}

/// A label and a number in decimal.
fn label_text(label: &str, tone: u8) -> (s: String)
    ensures
        s@ == label@ + decimal_digits(tone as nat),
{
    let mut s = String::from_str(label);
    s.append(decimal_text(tone as u64).as_str());
    s
}

/// The texts of a list of tones under a label, each once.
fn labelled_once(label: &str, tones: &ToneList) -> (list: TagList)
    ensures
        list@ == each_once(labelled(label@, tones@), tones@.len() as int),
{
    let mut list = TagList::new();
    let mut i: usize = 0;
    while i < tones.len()
        invariant
            i <= tones@.len(),
            list@ == each_once(labelled(label@, tones@), i as int),
        decreases tones@.len() - i,
    {
        let text = label_text(label, tones.get(i));
        if !list.contains(text.as_str()) {
            list.push(text);
        }
        i = i + 1;
    }
    list
}

/// The texts of a list, each once.
fn texts_once(tags: &TagList) -> (list: TagList)
    ensures
        list@ == each_once(tags@, tags@.len() as int),
{
    let mut list = TagList::new();
    let mut i: usize = 0;
    while i < tags.len()
        invariant
            i <= tags@.len(),
            list@ == each_once(tags@, i as int),
        decreases tags@.len() - i,
    {
        let text = tags.get(i).clone();
        if !list.contains(text.as_str()) {
            list.push(text);
        }
        i = i + 1;
    }
    list
}

/// The parts of a chord's symbol in Roman numerals.
pub fn get_relative_chord_graphic(chord: &Chord, scale_fingerprint: &ScaleFingerprint) -> (r:
    ChordTheoryResult<RomanNumeralGraphic>)
    ensures
        r is Ok <==> chord@.unwritable_degree() is None,
        r matches Ok(g) ==> g@ == chord@.graphic(),
        r matches Err(e) ==> chord@.unwritable_degree() matches Some(degree) && e == (
        ChordTheoryError::ScaleDegreeOutOfRange { degree }),
{
    if chord.is_rest {
        return Ok(RomanNumeralGraphic::new(String::from_str("REST")));
    }
    let quality_type = match determine_chord_quality(chord, scale_fingerprint) {
        Ok(q) => q,
        Err(e) => {
            return Err(e);
        },
    };
    let mut symbol = match get_roman_numeral_for_degree(chord.root, quality_type.roman_case()) {
        Ok(s) => s,
        Err(e) => {
            return Err(e);
        },
    };
    if chord.chord_type != 5 {
        symbol.append(decimal_text(chord.chord_type as u64).as_str());
    }
    let figured_bass = match get_figured_bass_notation(chord) {
        Ok(s) => s,
        Err(e) => {
            return Err(e);
        },
    };
    let applied = if chord.applied != 0 {
        match get_roman_numeral_for_degree(chord.applied, RomanCase::Upper) {
            Ok(numeral) => {
                let mut s = String::from_str("/");
                s.append(numeral.as_str());
                s
            },
            Err(e) => {
                return Err(e);
            },
        }
    } else {
        String::new()
    };
    let borrowed = match &chord.borrowed {
        Some(scale) => scale.scale_name(),
        None => String::new(),
    };
    let graphic = RomanNumeralGraphic {
        symbol,
        figured_bass,
        quality: quality_type.to_text(),
        applied,
        borrowed,
        alterations: texts_once(&chord.alterations),
        suspensions: labelled_once("sus", &chord.suspensions),
        adds: labelled_once("add", &chord.adds),
        omits: labelled_once("omit", &chord.omits),
    };
    assert(graphic@.applied =~= chord@.graphic().applied);
    assert(graphic@.symbol =~= chord@.graphic().symbol);
    Ok(graphic)
}

/// Whether two lists hold the same texts in the same order.
fn same_texts(a: &Vec<String>, b: &Vec<String>) -> (same: bool)
    ensures
        same == (texts(a@) == texts(b@)),
{
    if a.len() != b.len() {
        assert(texts(a@).len() != texts(b@).len());
        return false;
    }
    let mut i: usize = 0;
    while i < a.len()
        invariant
            i <= a@.len(),
            a@.len() == b@.len(),
            forall|k: int| 0 <= k < i ==> texts(a@)[k] == texts(b@)[k],
        decreases a@.len() - i,
    {
        if !text_eq(a[i].as_str(), b[i].as_str()) {
            assert(texts(a@)[i as int] != texts(b@)[i as int]);
            return false;
        }
        i = i + 1;
    }
    assert(texts(a@) =~= texts(b@));
    true
}

/// Whether two chords have the same tones in a scale. It is refused where
/// one of them has no tones to give.
pub fn is_isotonal(chord1: &Chord, chord2: &Chord, scale: &ScaleFingerprint) -> (r:
    ChordTheoryResult<bool>)
    ensures
        r is Ok <==> chord1@.stable_degrees() is Some && chord2@.stable_degrees() is Some,
        r matches Ok(same) ==> same == (chord1@.stable_degrees() == chord2@.stable_degrees()),
{
    let first = match get_stable_scale_degrees(chord1, scale) {
        Ok(v) => v,
        Err(e) => {
            return Err(e);
        },
    };
    let second = match get_stable_scale_degrees(chord2, scale) {
        Ok(v) => v,
        Err(e) => {
            return Err(e);
        },
    };
    Ok(same_texts(&first, &second))
}

/// The name of the function of a chord on a root: the tonic on 1, 3 and 6,
/// the predominant on 2 and 4, the dominant on 5 and 7.
pub open spec fn function_name(root: u8) -> Seq<char> {
    if root == 1 || root == 3 || root == 6 {
        "Tonic"@
    } else if root == 2 || root == 4 {
        "Predominant"@
    } else if root == 5 || root == 7 {
        "Dominant"@
    } else {
        "Chromatic"@
    }
}

/// The name of the function of a chord. The scale has no part in it.
pub fn analyze_harmonic_function(chord: &Chord, _scale_type: &str) -> (name: String)
    ensures
        name@ == function_name(chord.root),
{
    let root = chord.root;
    if root == 1 || root == 3 || root == 6 {
        String::from_str("Tonic")
    } else if root == 2 || root == 4 {
        String::from_str("Predominant")
    } else if root == 5 || root == 7 {
        String::from_str("Dominant")
    } else {
        String::from_str("Chromatic")
    }
}

} // verus!
