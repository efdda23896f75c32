//! Scale fingerprints: which of the twelve semitones of an octave a scale uses.

use vstd::prelude::*;
use crate::error::{ChordTheoryError, ChordTheoryResult};
use crate::text::{text_eq, to_lowercase, lowercase_of};

verus! {

/// A bit sequence is a fingerprint when it has twelve entries, each 0 or 1,
/// and at least one of them is 1.
pub open spec fn valid_semitones(s: Seq<u8>) -> bool {
    &&& s.len() == 12
    &&& forall|i: int| 0 <= i < 12 ==> s[i] <= 1
    &&& exists|i: int| 0 <= i < 12 && s[i] == 1
}

/// The positions below `n` that hold a 1, in ascending order.
pub open spec fn present_notes(s: Seq<u8>, n: nat) -> Seq<u8>
    decreases n,
{
    if n == 0 {
        Seq::empty()
    } else if s[n - 1] == 1 {
        present_notes(s, (n - 1) as nat).push((n - 1) as u8)
    } else {
        present_notes(s, (n - 1) as nat)
    }
}

/// The notes below `n` are fewer than `n`, each is below `n`, and they ascend.
pub proof fn lemma_present_notes(s: Seq<u8>, n: nat)
    requires
        n <= 12,
        s.len() == 12,
    ensures
        present_notes(s, n).len() <= n,
        forall|k: int| 0 <= k < present_notes(s, n).len() ==> present_notes(s, n)[k] < n,
        forall|k: int|
            0 <= k < present_notes(s, n).len() ==> s[#[trigger] present_notes(s, n)[k] as int]
                == 1,
        forall|i: int| 0 <= i < n && s[i] == 1 ==> present_notes(s, n).contains(i as u8),
        forall|j: int, k: int|
            0 <= j < k < present_notes(s, n).len() ==> present_notes(s, n)[j] < present_notes(
                s,
                n,
            )[k],
    decreases n,
{
    if n > 0 {
        lemma_present_notes(s, (n - 1) as nat);
        let rest = present_notes(s, (n - 1) as nat);
        if s[n - 1] == 1 {
            let all = rest.push((n - 1) as u8);
            assert(all[all.len() - 1] == (n - 1) as u8);
            assert forall|i: int| 0 <= i < n && s[i] == 1 implies all.contains(i as u8) by {
                if i < n - 1 {
                    let k = choose|k: int| 0 <= k < rest.len() && rest[k] == i as u8;
                    assert(all[k] == i as u8);
                } else {
                    assert(all[all.len() - 1] == i as u8);
                }
            }
        }
    }
}

/// Twelve semitone flags of a scale, each 0 or 1, not all 0.
#[derive(Debug, Clone, Copy, PartialEq, Eq, Hash)]
pub struct ScaleFingerprint([u8; 12]);

impl View for ScaleFingerprint {
    type V = Seq<u8>;

    closed spec fn view(&self) -> Seq<u8> {
        self.0@
    }
}

/// The names of the twelve notes, from C upwards.
pub const NOTE_NAMES: [&'static str; 12] = [
    "C",
    "C#",
    "D",
    "D#",
    "E",
    "F",
    "F#",
    "G",
    "G#",
    "A",
    "A#",
    "B",
];

/// Whether one of the first `upto` notes belongs to the scale.
pub open spec fn any_note(semitones: Seq<u8>, upto: int) -> bool
    decreases upto,
{
    0 < upto <= semitones.len() && (semitones[upto - 1] == 1 || any_note(semitones, upto - 1))
}

/// The names of those of the first `upto` notes that belong to the scale,
/// with a comma and a space between them.
pub open spec fn named_notes(semitones: Seq<u8>, upto: int) -> Seq<char>
    decreases upto,
{
    if upto <= 0 || upto > semitones.len() || upto > 12 {
        Seq::empty()
    } else if semitones[upto - 1] != 1 {
        named_notes(semitones, upto - 1)
    } else if any_note(semitones, upto - 1) {
        named_notes(semitones, upto - 1) + ", "@ + NOTE_NAMES@[upto - 1]@
    } else {
        named_notes(semitones, upto - 1) + NOTE_NAMES@[upto - 1]@
    }
}

impl ScaleFingerprint {
    /// The chromatic notes of the scale, in ascending order.
    pub open spec fn notes(&self) -> Seq<u8> {
        present_notes(self@, 12)
    }

    /// A fingerprint from twelve flags. It is refused when a flag is above 1
    /// or when no flag is set.
    pub fn new(semitones: [u8; 12]) -> (r: ChordTheoryResult<Self>)
        ensures
            r is Ok <==> valid_semitones(semitones@),
            r matches Ok(fp) ==> fp@ == semitones@,
            r matches Err(e) ==> e is InvalidScaleFingerprint,
    {
        let mut any = false;
        let mut i: usize = 0;
        while i < 12
            invariant
                i <= 12,
                forall|j: int| 0 <= j < i ==> semitones@[j] <= 1,
                any <==> exists|j: int| 0 <= j < i && semitones@[j] == 1,
            decreases 12 - i,
        {
            if semitones[i] > 1 {
                return Err(
                    ChordTheoryError::InvalidScaleFingerprint {
                        reason: "Every position must be 0 or 1".to_string(),
                    },
                );
            }
            if semitones[i] == 1 {
                any = true;
            }
            i = i + 1;
        }
        if !any {
            return Err(
                ChordTheoryError::InvalidScaleFingerprint {
                    reason: "Scale must contain at least one note".to_string(),
                },
            );
        }
        Ok(ScaleFingerprint(semitones))
    }

    /// A fingerprint from a slice, which must have exactly twelve valid flags.
    pub fn from_slice(slice: &[u8]) -> (r: ChordTheoryResult<Self>)
        ensures
            r is Ok <==> valid_semitones(slice@),
            r matches Ok(fp) ==> fp@ == slice@,
            r matches Err(e) ==> e is InvalidScaleFingerprint,
    {
        if slice.len() != 12 {
            return Err(
                ChordTheoryError::InvalidScaleFingerprint {
                    reason: "Scale fingerprint must have exactly 12 elements".to_string(),
                },
            );
        }
        let mut array: [u8; 12] = [0, 0, 0, 0, 0, 0, 0, 0, 0, 0, 0, 0];
        let mut i: usize = 0;
        while i < 12
            invariant
                i <= 12,
                slice@.len() == 12,
                forall|j: int| 0 <= j < i ==> array@[j] == slice@[j],
            decreases 12 - i,
        {
            array[i] = slice[i];
            i = i + 1;
        }
        assert(array@ =~= slice@);
        Self::new(array)
    }

    /// The twelve flags.
    pub fn semitones(&self) -> (r: &[u8; 12])
        ensures
            r@ == self@,
    {
        &self.0
    }

    /// Whether the chromatic note (0 to 11) belongs to the scale.
    pub fn contains_chromatic(&self, chromatic: u8) -> (b: bool)
        ensures
            b == (chromatic < 12 && self@[chromatic as int] == 1),
    {
        if chromatic >= 12 {
            return false;
        }
        self.0[chromatic as usize] == 1
    }

    /// The chromatic notes of the scale, in ascending order.
    pub fn chromatic_notes(&self) -> (v: Vec<u8>)
        ensures
            v@ == self.notes(),
            v@.len() <= 12,
    {
        let mut v: Vec<u8> = Vec::new();
        let mut i: usize = 0;
        while i < 12
            invariant
                i <= 12,
                self@.len() == 12,
                v@ == present_notes(self@, i as nat),
            decreases 12 - i,
        {
            if self.0[i] == 1 {
                v.push(i as u8);
            }
            i = i + 1;
        }
        proof {
            lemma_present_notes(self@, 12);
        }
        v
    }

    /// How many notes the scale has.
    pub fn note_count(&self) -> (n: usize)
        ensures
            n == self.notes().len(),
            n <= 12,
    {
        self.chromatic_notes().len()
    }

    /// Whether the scale has exactly seven notes.
    pub fn is_diatonic(&self) -> (b: bool)
        ensures
            b == (self.notes().len() == 7),
    {
        self.note_count() == 7
    }

    /// The degrees of the scale: 1, 2, ... up to its number of notes.
    pub fn scale_degrees(&self) -> (v: Vec<u8>)
        ensures
            v@.len() == self.notes().len(),
            forall|i: int| 0 <= i < v@.len() ==> v@[i] == i + 1,
    {
        let n = self.note_count();
        let mut v: Vec<u8> = Vec::new();
        let mut i: usize = 0;
        while i < n
            invariant
                i <= n <= 12,
                v@.len() == i,
                forall|j: int| 0 <= j < i ==> v@[j] == j + 1,
            decreases n - i,
        {
            v.push((i + 1) as u8);
            i = i + 1;
        }
        v
    }

    /// The 1-based degree of a chromatic note, if the scale holds it.
    pub fn chromatic_to_scale_degree(&self, chromatic: u8) -> (r: Option<u8>)
        ensures
            r is Some <==> (chromatic < 12 && self@[chromatic as int] == 1),
            r matches Some(d) ==> 1 <= d <= self.notes().len() && self.notes()[d - 1]
                == chromatic,
    {
        if !self.contains_chromatic(chromatic) {
            return None;
        }
        let notes = self.chromatic_notes();
        proof {
            lemma_present_notes(self@, 12);
            assert(self.notes().contains(chromatic));
        }
        let mut i: usize = 0;
        while i < notes.len()
            invariant
                i <= notes.len() <= 12,
                notes@ == self.notes(),
                notes@.contains(chromatic),
                chromatic < 12 && self@[chromatic as int] == 1,
                forall|j: int| 0 <= j < i ==> notes@[j] != chromatic,
            decreases notes.len() - i,
        {
            if notes[i] == chromatic {
                return Some((i + 1) as u8);
            }
            i = i + 1;
        }
        proof {
            let k = choose|k: int| 0 <= k < notes@.len() && notes@[k] == chromatic;
            assert(false);
        }
        None
    }

    /// The chromatic note of a degree from 1 to 7, if the scale has that many notes.
    pub fn scale_degree_to_chromatic(&self, degree: u8) -> (r: Option<u8>)
        ensures
            r is Some <==> (1 <= degree <= 7 && degree <= self.notes().len()),
            r matches Some(c) ==> c == self.notes()[degree - 1],
    {
        if degree == 0 || degree > 7 {
            return None;
        }
        let notes = self.chromatic_notes();
        if (degree as usize) <= notes.len() {
            Some(notes[(degree - 1) as usize])
        } else {
            None
        }
    }

    /// The names of the notes of the scale, as in `[C, D, E]`.
    pub fn to_text(&self) -> (s: String)
        ensures
            s@ == "["@ + named_notes(self@, 12) + "]"@,
    {
        let mut s = String::from_str("[");
        let mut first = true;
        let mut i: usize = 0;
        assert(s@ =~= "["@ + named_notes(self@, 0));
        while i < 12
            invariant
                i <= 12,
                first == !any_note(self@, i as int),
                s@ == "["@ + named_notes(self@, i as int),
            decreases 12 - i,
        {
            if self.0[i] == 1 {
                if !first {
                    s.append(", ");
                }
                s.append(NOTE_NAMES[i]);
                first = false;
            }
            i = i + 1;
            assert(s@ =~= "["@ + named_notes(self@, i as int));
        }
        s.append("]");
        s
    }

    /// C major.
    pub fn major_scale() -> (fp: Self)
        ensures
            fp@ == seq![1u8, 0, 1, 0, 1, 1, 0, 1, 0, 1, 0, 1],
    {
        ScaleFingerprint([1, 0, 1, 0, 1, 1, 0, 1, 0, 1, 0, 1])
    }

    /// Natural minor.
    pub fn minor_scale() -> (fp: Self)
        ensures
            fp@ == seq![1u8, 0, 1, 1, 0, 1, 0, 1, 1, 0, 1, 0],
    {
        ScaleFingerprint([1, 0, 1, 1, 0, 1, 0, 1, 1, 0, 1, 0])
    }

    /// Harmonic minor.
    pub fn harmonic_minor_scale() -> (fp: Self)
        ensures
            fp@ == seq![1u8, 0, 1, 1, 0, 1, 0, 1, 1, 0, 0, 1],
    {
        ScaleFingerprint([1, 0, 1, 1, 0, 1, 0, 1, 1, 0, 0, 1])
    }

    /// All twelve semitones.
    pub fn chromatic_scale() -> (fp: Self)
        ensures
            fp@ == seq![1u8, 1, 1, 1, 1, 1, 1, 1, 1, 1, 1, 1],
    {
        ScaleFingerprint([1, 1, 1, 1, 1, 1, 1, 1, 1, 1, 1, 1])
    }

    /// Dorian mode.
    pub fn dorian_scale() -> (fp: Self)
        ensures
            fp@ == seq![1u8, 0, 1, 1, 0, 1, 0, 1, 0, 1, 1, 0],
    {
        ScaleFingerprint([1, 0, 1, 1, 0, 1, 0, 1, 0, 1, 1, 0])
    }

    /// Mixolydian mode.
    pub fn mixolydian_scale() -> (fp: Self)
        ensures
            fp@ == seq![1u8, 0, 1, 0, 1, 1, 0, 1, 0, 1, 1, 0],
    {
        ScaleFingerprint([1, 0, 1, 0, 1, 1, 0, 1, 0, 1, 1, 0])
    }
}

impl Default for ScaleFingerprint {
    /// The default scale is C major.
    fn default() -> (fp: Self)
        ensures
            fp@ == seq![1u8, 0, 1, 0, 1, 1, 0, 1, 0, 1, 0, 1],
    {
        Self::major_scale()
    }
}

/// The common scales by name, and any other scale by its fingerprint.
#[derive(Debug, Clone, Copy, PartialEq, Eq, Hash)]
pub enum ScaleType {
    Major,
    Minor,
    HarmonicMinor,
    Dorian,
    Mixolydian,
    Chromatic,
    Custom(ScaleFingerprint),
}

/// The scale that a lowercase name stands for.
pub open spec fn scale_of_name(lower: Seq<char>) -> Option<ScaleType> {
    if lower == "major"@ {
        Some(ScaleType::Major)
    } else if lower == "minor"@ {
        Some(ScaleType::Minor)
    } else if lower == "harmonic_minor"@ {
        Some(ScaleType::HarmonicMinor)
    } else if lower == "dorian"@ {
        Some(ScaleType::Dorian)
    } else if lower == "mixolydian"@ {
        Some(ScaleType::Mixolydian)
    } else if lower == "chromatic"@ {
        Some(ScaleType::Chromatic)
    } else {
        None
    }
}

impl ScaleType {
    /// The name of the scale type; every custom scale is called `custom`.
    pub open spec fn name_of(self) -> Seq<char> {
        match self {
            ScaleType::Major => "major"@,
            ScaleType::Minor => "minor"@,
            ScaleType::HarmonicMinor => "harmonic_minor"@,
            ScaleType::Dorian => "dorian"@,
            ScaleType::Mixolydian => "mixolydian"@,
            ScaleType::Chromatic => "chromatic"@,
            ScaleType::Custom(_) => "custom"@,
        }
    }

    /// The flags of the scale type.
    pub open spec fn flags(self) -> Seq<u8> {
        match self {
            ScaleType::Major => seq![1u8, 0, 1, 0, 1, 1, 0, 1, 0, 1, 0, 1],
            ScaleType::Minor => seq![1u8, 0, 1, 1, 0, 1, 0, 1, 1, 0, 1, 0],
            ScaleType::HarmonicMinor => seq![1u8, 0, 1, 1, 0, 1, 0, 1, 1, 0, 0, 1],
            ScaleType::Dorian => seq![1u8, 0, 1, 1, 0, 1, 0, 1, 0, 1, 1, 0],
            ScaleType::Mixolydian => seq![1u8, 0, 1, 0, 1, 1, 0, 1, 0, 1, 1, 0],
            ScaleType::Chromatic => seq![1u8, 1, 1, 1, 1, 1, 1, 1, 1, 1, 1, 1],
            ScaleType::Custom(fp) => fp@,
        }
    }

    /// The fingerprint of the scale type.
    pub fn fingerprint(&self) -> (fp: ScaleFingerprint)
        ensures
            fp@ == self.flags(),
    {
        match self {
            ScaleType::Major => ScaleFingerprint::major_scale(),
            ScaleType::Minor => ScaleFingerprint::minor_scale(),
            ScaleType::HarmonicMinor => ScaleFingerprint::harmonic_minor_scale(),
            ScaleType::Dorian => ScaleFingerprint::dorian_scale(),
            ScaleType::Mixolydian => ScaleFingerprint::mixolydian_scale(),
            ScaleType::Chromatic => ScaleFingerprint::chromatic_scale(),
            ScaleType::Custom(fp) => *fp,
        }
    }

    /// The scale type that a name stands for, whatever its letter case.
    pub fn from_name(name: &str) -> (r: Option<Self>)
        ensures
            r == scale_of_name(lowercase_of(name@)),
    {
        let lower = to_lowercase(name);
        let l = lower.as_str();
        if text_eq(l, "major") {
            Some(ScaleType::Major)
        } else if text_eq(l, "minor") {
            Some(ScaleType::Minor)
        } else if text_eq(l, "harmonic_minor") {
            Some(ScaleType::HarmonicMinor)
        } else if text_eq(l, "dorian") {
            Some(ScaleType::Dorian)
        } else if text_eq(l, "mixolydian") {
            Some(ScaleType::Mixolydian)
        } else if text_eq(l, "chromatic") {
            Some(ScaleType::Chromatic)
        } else {
            None
        }
    }

    /// The name of the scale type.
    pub fn name(&self) -> (r: &str)
        ensures
            r@ == self.name_of(),
    {
        match self {
            ScaleType::Major => "major",
            ScaleType::Minor => "minor",
            ScaleType::HarmonicMinor => "harmonic_minor",
            ScaleType::Dorian => "dorian",
            ScaleType::Mixolydian => "mixolydian",
            ScaleType::Chromatic => "chromatic",
            ScaleType::Custom(_) => "custom",
        }
    }
}

} // verus!
