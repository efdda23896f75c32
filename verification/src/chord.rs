//! The chord value and its validation rules.

use vstd::prelude::*;
use crate::error::{ChordTheoryError, ChordTheoryResult};
use crate::fixed::Fixed;
use crate::lists::{ToneList, TagList};
use crate::scale::ScaleType;
use crate::text::{text_eq, decimal_text, decimal_digits};

verus! {

/// The scale a chord is borrowed from.
#[derive(Debug, PartialEq)]
pub enum BorrowedScale {
    /// A scale by name, such as `harmonic_minor`.
    Named(String),
    /// A scale by type.
    ScaleType(ScaleType),
    /// A numeric modal offset.
    Numeric(i8),
}

/// What a borrowed scale is, with its name as characters.
pub enum BorrowedModel {
    Named(Seq<char>),
    ScaleType(ScaleType),
    Numeric(i8),
}

impl View for BorrowedScale {
    type V = BorrowedModel;

    open spec fn view(&self) -> BorrowedModel {
        match self {
            BorrowedScale::Named(name) => BorrowedModel::Named(name@),
            BorrowedScale::ScaleType(t) => BorrowedModel::ScaleType(*t),
            BorrowedScale::Numeric(offset) => BorrowedModel::Numeric(*offset),
        }
    }
}

impl BorrowedModel {
    /// The name of the scale: the name itself, the name of the scale type, or
    /// `mode_` followed by the signed offset.
    pub open spec fn name(self) -> Seq<char> {
        match self {
            BorrowedModel::Named(name) => name,
            BorrowedModel::ScaleType(t) => t.name_of(),
            BorrowedModel::Numeric(offset) => if offset >= 0 {
                "mode_+"@ + decimal_digits(offset as nat)
            } else {
                "mode_-"@ + decimal_digits((-offset) as nat)
            },
        }
    }
}

impl Clone for BorrowedScale {
    fn clone(&self) -> (r: Self)
        ensures
            r@ == self@,
    {
        match self {
            BorrowedScale::Named(name) => BorrowedScale::Named(name.clone()),
            BorrowedScale::ScaleType(t) => BorrowedScale::ScaleType(*t),
            BorrowedScale::Numeric(offset) => BorrowedScale::Numeric(*offset),
        }
    }
}

impl BorrowedScale {
    /// The name of the scale as text.
    pub fn scale_name(&self) -> (s: String)
        ensures
            s@ == self@.name(),
    {
        match self {
            BorrowedScale::Named(name) => name.clone(),
            BorrowedScale::ScaleType(t) => String::from_str(t.name()),
            BorrowedScale::Numeric(offset) => {
                let o: i8 = *offset;
                if o >= 0 {
                    let mut s = String::from_str("mode_+");
                    let d = decimal_text(o as u64);
                    s.append(d.as_str());
                    s
                } else {
                    let mut s = String::from_str("mode_-");
                    let m: u64 = (-(o as i64)) as u64;
                    let d = decimal_text(m);
                    s.append(d.as_str());
                    s
                }
            },
        }
    }
}

/// A chord: a root degree, a type, and what modifies it.
#[derive(Debug, PartialEq)]
pub struct Chord {
    /// Scale degree from 1 to 7; 0 for a rest.
    pub root: u8,
    /// 5 for a triad, then 7, 9, 11 or 13.
    pub chord_type: u8,
    /// Inversion from 0 (root position) to 3.
    pub inversion: u8,
    /// Degree that an applied chord aims at, from 1 to 7; 0 for none.
    pub applied: u8,
    /// Added intervals: 4, 6 or 9.
    pub adds: ToneList,
    /// Omitted tones: 3 or 5.
    pub omits: ToneList,
    /// Alterations: `b5`, `#5`, `b9`, `#9`, `#11`, `b13`.
    pub alterations: TagList,
    /// Suspended intervals: 2 or 4.
    pub suspensions: ToneList,
    /// The scale the chord is borrowed from, if any.
    pub borrowed: Option<BorrowedScale>,
    /// Pedal note.
    pub pedal: Option<String>,
    /// Alternate chord symbol.
    pub alternate: String,
    /// Substitution names.
    pub substitutions: TagList,
    /// Whether the chord is a rest.
    pub is_rest: bool,
    /// Beat position.
    pub beat: Option<Fixed>,
    /// Duration in beats.
    pub duration: Option<Fixed>,
}

/// A chord as a mathematical value: every list a sequence, every text its characters.
pub struct ChordModel {
    pub root: u8,
    pub chord_type: u8,
    pub inversion: u8,
    pub applied: u8,
    pub adds: Seq<u8>,
    pub omits: Seq<u8>,
    pub alterations: Seq<Seq<char>>,
    pub suspensions: Seq<u8>,
    pub borrowed: Option<BorrowedModel>,
    pub pedal: Option<Seq<char>>,
    pub alternate: Seq<char>,
    pub substitutions: Seq<Seq<char>>,
    pub is_rest: bool,
    pub beat: Option<Fixed>,
    pub duration: Option<Fixed>,
}

/// The characters of an optional text.
pub open spec fn option_text(o: Option<String>) -> Option<Seq<char>> {
    match o {
        Some(s) => Some(s@),
        None => None,
    }
}

/// The model of an optional borrowed scale.
pub open spec fn option_borrowed(o: Option<BorrowedScale>) -> Option<BorrowedModel> {
    match o {
        Some(b) => Some(b@),
        None => None,
    }
}

impl View for Chord {
    type V = ChordModel;

    open spec fn view(&self) -> ChordModel {
        ChordModel {
            root: self.root,
            chord_type: self.chord_type,
            inversion: self.inversion,
            applied: self.applied,
            adds: self.adds@,
            omits: self.omits@,
            alterations: self.alterations@,
            suspensions: self.suspensions@,
            borrowed: option_borrowed(self.borrowed),
            pedal: option_text(self.pedal),
            alternate: self.alternate@,
            substitutions: self.substitutions@,
            is_rest: self.is_rest,
            beat: self.beat,
            duration: self.duration,
        }
    }
}

/// The chord types: triad, seventh, ninth, eleventh, thirteenth.
pub open spec fn is_chord_type(t: u8) -> bool {
    t == 5 || t == 7 || t == 9 || t == 11 || t == 13
}

/// The bit that stands for an alteration token in the alteration byte of the
/// binary form; `None` for a text that is no alteration token.
pub open spec fn alteration_bit_of(s: Seq<char>) -> Option<u8> {
    if s == seq!['b', '1', '3'] {
        Some(0x20u8)
    } else if s == seq!['#', '1', '1'] {
        Some(0x10u8)
    } else if s == seq!['#', '9'] {
        Some(0x08u8)
    } else if s == seq!['b', '9'] {
        Some(0x04u8)
    } else if s == seq!['#', '5'] {
        Some(0x02u8)
    } else if s == seq!['b', '5'] {
        Some(0x01u8)
    } else {
        None
    }
}

/// The six alteration tokens.
pub open spec fn is_alteration_token(s: Seq<char>) -> bool {
    alteration_bit_of(s) is Some
}

/// The intervals that can be suspended.
pub open spec fn suspension_tones() -> Seq<u8> {
    seq![2u8, 4u8]
}

/// The intervals that can be added.
pub open spec fn add_tones() -> Seq<u8> {
    seq![4u8, 6u8, 9u8]
}

/// The tones that can be omitted.
pub open spec fn omit_tones() -> Seq<u8> {
    seq![3u8, 5u8]
}

/// The first rule that a chord breaks, in the order in which they are checked.
pub enum ChordFault {
    Root,
    ChordType,
    Inversion,
    Applied,
    /// The alteration at this index is no alteration token.
    Alteration(int),
    /// The suspension at this index is neither 2 nor 4.
    Suspension(int),
    /// The added tone at this index is none of 4, 6, 9.
    Add(int),
    /// The omitted tone at this index is neither 3 nor 5.
    Omit(int),
    /// Both the flat and the sharp fifth.
    FifthConflict,
    /// Both the flat and the sharp ninth.
    NinthConflict,
    /// Both suspensions.
    SuspensionConflict,
}

/// The first index from `from` on whose tone is not among `allowed`, or the length.
pub open spec fn first_bad_tone(s: Seq<u8>, allowed: Seq<u8>, from: int) -> int
    decreases s.len() - from,
{
    if from < 0 || from >= s.len() {
        s.len() as int
    } else if !allowed.contains(s[from]) {
        from
    } else {
        first_bad_tone(s, allowed, from + 1)
    }
}

/// The first index from `from` on whose text is no alteration token, or the length.
pub open spec fn first_bad_tag(s: Seq<Seq<char>>, from: int) -> int
    decreases s.len() - from,
{
    if from < 0 || from >= s.len() {
        s.len() as int
    } else if !is_alteration_token(s[from]) {
        from
    } else {
        first_bad_tag(s, from + 1)
    }
}

impl ChordModel {
    /// The first broken rule, or `None` for a valid chord. A rest only has to
    /// have root 0; any other chord has to pass every rule.
    pub open spec fn fault(self) -> Option<ChordFault> {
        if self.is_rest {
            if self.root != 0 {
                Some(ChordFault::Root)
            } else {
                None
            }
        } else if self.root == 0 || self.root > 7 {
            Some(ChordFault::Root)
        } else if !is_chord_type(self.chord_type) {
            Some(ChordFault::ChordType)
        } else if self.inversion > 3 {
            Some(ChordFault::Inversion)
        } else if self.applied > 7 {
            Some(ChordFault::Applied)
        } else if first_bad_tag(self.alterations, 0) < self.alterations.len() {
            Some(ChordFault::Alteration(first_bad_tag(self.alterations, 0)))
        } else if first_bad_tone(self.suspensions, suspension_tones(), 0)
            < self.suspensions.len() {
            Some(ChordFault::Suspension(first_bad_tone(self.suspensions, suspension_tones(), 0)))
        } else if first_bad_tone(self.adds, add_tones(), 0) < self.adds.len() {
            Some(ChordFault::Add(first_bad_tone(self.adds, add_tones(), 0)))
        } else if first_bad_tone(self.omits, omit_tones(), 0) < self.omits.len() {
            Some(ChordFault::Omit(first_bad_tone(self.omits, omit_tones(), 0)))
        } else if self.alterations.contains(seq!['b', '5']) && self.alterations.contains(
            seq!['#', '5'],
        ) {
            Some(ChordFault::FifthConflict)
        } else if self.alterations.contains(seq!['b', '9']) && self.alterations.contains(
            seq!['#', '9'],
        ) {
            Some(ChordFault::NinthConflict)
        } else if self.suspensions.contains(2) && self.suspensions.contains(4) {
            Some(ChordFault::SuspensionConflict)
        } else {
            None
        }
    }

    /// A chord is valid when it breaks no rule.
    pub open spec fn valid(self) -> bool {
        self.fault() is None
    }

    /// The error that reports a fault of this chord.
    pub open spec fn reports(self, fault: ChordFault, e: ChordTheoryError) -> bool {
        match fault {
            ChordFault::Root => e == (ChordTheoryError::InvalidChordRoot { root: self.root }),
            ChordFault::ChordType => e == (ChordTheoryError::InvalidChordType {
                chord_type: self.chord_type,
            }),
            ChordFault::Inversion => e == (ChordTheoryError::InvalidInversion {
                inversion: self.inversion,
            }),
            ChordFault::Applied => e == (ChordTheoryError::InvalidApplied {
                applied: self.applied,
            }),
            ChordFault::Alteration(i) => e matches ChordTheoryError::InvalidAlteration {
                alteration,
            } && alteration@ == self.alterations[i],
            ChordFault::Suspension(i) => e == (ChordTheoryError::InvalidSuspension {
                suspension: self.suspensions[i],
            }),
            ChordFault::Add(i) => e matches ChordTheoryError::InvalidAlteration { alteration }
                && alteration@ == "add"@ + decimal_digits(self.adds[i] as nat),
            ChordFault::Omit(i) => e matches ChordTheoryError::InvalidAlteration { alteration }
                && alteration@ == "omit"@ + decimal_digits(self.omits[i] as nat),
            ChordFault::FifthConflict => e matches ChordTheoryError::IncompatibleAlterations {
                alterations,
            } && alterations@.len() == 2 && alterations@[0]@ == "b5"@ && alterations@[1]@
                == "#5"@,
            ChordFault::NinthConflict => e matches ChordTheoryError::IncompatibleAlterations {
                alterations,
            } && alterations@.len() == 2 && alterations@[0]@ == "b9"@ && alterations@[1]@
                == "#9"@,
            ChordFault::SuspensionConflict => e matches ChordTheoryError::IncompatibleAlterations {
                alterations,
            } && alterations@.len() == 2 && alterations@[0]@ == "sus2"@ && alterations@[1]@
                == "sus4"@,
        }
    }

    /// The number of tones that the type calls for.
    pub open spec fn base_tones(self) -> int {
        if self.chord_type == 7 {
            4
        } else if self.chord_type == 9 {
            5
        } else if self.chord_type == 11 {
            6
        } else if self.chord_type == 13 {
            7
        } else {
            3
        }
    }
}

/// The bit of an alteration token, or `None` for any other text.
pub fn alteration_bit(token: &str) -> (r: Option<u8>)
    ensures
        r == alteration_bit_of(token@),
{
    proof {
        reveal_strlit("b13");
        reveal_strlit("#11");
        reveal_strlit("#9");
        reveal_strlit("b9");
        reveal_strlit("#5");
        reveal_strlit("b5");
        assert("b13"@ =~= seq!['b', '1', '3']);
        assert("#11"@ =~= seq!['#', '1', '1']);
        assert("#9"@ =~= seq!['#', '9']);
        assert("b9"@ =~= seq!['b', '9']);
        assert("#5"@ =~= seq!['#', '5']);
        assert("b5"@ =~= seq!['b', '5']);
    }
    if text_eq(token, "b13") {
        Some(0x20)
    } else if text_eq(token, "#11") {
        Some(0x10)
    } else if text_eq(token, "#9") {
        Some(0x08)
    } else if text_eq(token, "b9") {
        Some(0x04)
    } else if text_eq(token, "#5") {
        Some(0x02)
    } else if text_eq(token, "b5") {
        Some(0x01)
    } else {
        None
    }
}

/// The index of the first tone of `list` that is not among `allowed`.
fn find_bad_tone(list: &ToneList, allowed: &[u8]) -> (r: Option<usize>)
    ensures
        match r {
            Some(i) => i < list@.len() && i == first_bad_tone(list@, allowed@, 0),
            None => first_bad_tone(list@, allowed@, 0) == list@.len(),
        },
{
    let s = list.as_slice();
    let mut i: usize = 0;
    while i < s.len()
        invariant
            i <= s.len(),
            s@ == list@,
            first_bad_tone(list@, allowed@, 0) == first_bad_tone(list@, allowed@, i as int),
        decreases s.len() - i,
    {
        let t = s[i];
        let mut found = false;
        let mut k: usize = 0;
        while k < allowed.len()
            invariant
                k <= allowed.len(),
                found <==> exists|j: int| 0 <= j < k && allowed@[j] == t,
            decreases allowed.len() - k,
        {
            if allowed[k] == t {
                found = true;
            }
            k = k + 1;
        }
        if !found {
            assert(!allowed@.contains(t));
            return Some(i);
        }
        proof {
            let j = choose|j: int| 0 <= j < allowed@.len() && allowed@[j] == t;
            assert(allowed@.contains(t));
        }
        i = i + 1;
    }
    None
}

/// The index of the first text of `list` that is no alteration token.
fn find_bad_tag(list: &TagList) -> (r: Option<usize>)
    ensures
        match r {
            Some(i) => i < list@.len() && i == first_bad_tag(list@, 0),
            None => first_bad_tag(list@, 0) == list@.len(),
        },
{
    let n = list.len();
    let mut i: usize = 0;
    while i < n
        invariant
            i <= n,
            n == list@.len(),
            first_bad_tag(list@, 0) == first_bad_tag(list@, i as int),
        decreases n - i,
    {
        if alteration_bit(list.get(i).as_str()).is_none() {
            return Some(i);
        }
        i = i + 1;
    }
    None
}

/// A list of two texts.
fn pair_of(a: &str, b: &str) -> (v: Vec<String>)
    ensures
        v@.len() == 2,
        v@[0]@ == a@,
        v@[1]@ == b@,
{
    let mut v: Vec<String> = Vec::new();
    v.push(String::from_str(a));
    v.push(String::from_str(b));
    v
}

impl Default for Chord {
    /// The tonic triad in root position, with nothing added.
    fn default() -> (c: Self)
        ensures
            c@ == ChordModel::plain(1, 5),
    {
        Chord {
            root: 1,
            chord_type: 5,
            inversion: 0,
            applied: 0,
            adds: ToneList::new(),
            omits: ToneList::new(),
            alterations: TagList::new(),
            suspensions: ToneList::new(),
            borrowed: None,
            pedal: None,
            alternate: String::new(),
            substitutions: TagList::new(),
            is_rest: false,
            beat: None,
            duration: None,
        }
    }
}

impl Clone for Chord {
    fn clone(&self) -> (c: Self)
        ensures
            c@ == self@,
    {
        Chord {
            root: self.root,
            chord_type: self.chord_type,
            inversion: self.inversion,
            applied: self.applied,
            adds: self.adds.clone(),
            omits: self.omits.clone(),
            alterations: self.alterations.clone(),
            suspensions: self.suspensions.clone(),
            borrowed: match &self.borrowed {
                Some(b) => Some(b.clone()),
                None => None,
            },
            pedal: match &self.pedal {
                Some(p) => Some(p.clone()),
                None => None,
            },
            alternate: self.alternate.clone(),
            substitutions: self.substitutions.clone(),
            is_rest: self.is_rest,
            beat: self.beat,
            duration: self.duration,
        }
    }
}

impl ChordModel {
    /// The chord with the given root and type and nothing else.
    pub open spec fn plain(root: u8, chord_type: u8) -> ChordModel {
        ChordModel {
            root,
            chord_type,
            inversion: 0,
            applied: 0,
            adds: Seq::empty(),
            omits: Seq::empty(),
            alterations: Seq::empty(),
            suspensions: Seq::empty(),
            borrowed: None,
            pedal: None,
            alternate: Seq::empty(),
            substitutions: Seq::empty(),
            is_rest: false,
            beat: None,
            duration: None,
        }
    }

    /// `s` with `x` appended unless it is there already.
    pub open spec fn with_tone(s: Seq<u8>, x: u8) -> Seq<u8> {
        if s.contains(x) {
            s
        } else {
            s.push(x)
        }
    }

    /// `s` with `x` appended unless it is there already.
    pub open spec fn with_tag(s: Seq<Seq<char>>, x: Seq<char>) -> Seq<Seq<char>> {
        if s.contains(x) {
            s
        } else {
            s.push(x)
        }
    }
}

impl Chord {
    /// The chord with the given root and type, if that is a valid chord.
    pub fn new(root: u8, chord_type: u8) -> (r: ChordTheoryResult<Self>)
        ensures
            r is Ok <==> ChordModel::plain(root, chord_type).valid(),
            r matches Ok(c) ==> c@ == ChordModel::plain(root, chord_type),
            r matches Err(e) ==> ChordModel::plain(root, chord_type).reports(
                ChordModel::plain(root, chord_type).fault()->0,
                e,
            ),
    {
        let mut chord = Chord::default();
        chord.root = root;
        chord.chord_type = chord_type;
        match chord.validate() {
            Ok(()) => Ok(chord),
            Err(e) => Err(e),
        }
    }

    /// The rest: root 0, marked as a rest.
    pub fn rest() -> (c: Self)
        ensures
            c@ == (ChordModel { root: 0, is_rest: true, ..ChordModel::plain(0, 5) }),
            c@.valid(),
    {
        let mut chord = Chord::default();
        chord.root = 0;
        chord.is_rest = true;
        chord
    }

    /// The triad on the given root.
    pub fn triad(root: u8) -> (r: ChordTheoryResult<Self>)
        ensures
            r is Ok <==> ChordModel::plain(root, 5).valid(),
            r matches Ok(c) ==> c@ == ChordModel::plain(root, 5),
    {
        Self::new(root, 5)
    }

    /// The seventh chord on the given root.
    pub fn seventh(root: u8) -> (r: ChordTheoryResult<Self>)
        ensures
            r is Ok <==> ChordModel::plain(root, 7).valid(),
            r matches Ok(c) ==> c@ == ChordModel::plain(root, 7),
    {
        Self::new(root, 7)
    }

    /// Checks every rule in order and reports the first one that is broken.
    pub fn validate(&self) -> (r: ChordTheoryResult<()>)
        ensures
            r is Ok <==> self@.valid(),
            r matches Err(e) ==> self@.reports(self@.fault()->0, e),
    {
        if self.is_rest {
            if self.root != 0 {
                return Err(ChordTheoryError::InvalidChordRoot { root: self.root });
            }
            return Ok(());
        }
        if self.root == 0 || self.root > 7 {
            return Err(ChordTheoryError::InvalidChordRoot { root: self.root });
        }
        let t = self.chord_type;
        if !(t == 5 || t == 7 || t == 9 || t == 11 || t == 13) {
            return Err(ChordTheoryError::InvalidChordType { chord_type: self.chord_type });
        }
        if self.inversion > 3 {
            return Err(ChordTheoryError::InvalidInversion { inversion: self.inversion });
        }
        if self.applied > 7 {
            return Err(ChordTheoryError::InvalidApplied { applied: self.applied });
        }
        match find_bad_tag(&self.alterations) {
            Some(i) => {
                return Err(
                    ChordTheoryError::InvalidAlteration {
                        alteration: self.alterations.get(i).clone(),
                    },
                );
            },
            None => {},
        }
        let suspendable: [u8; 2] = [2, 4];
        assert(suspendable@ =~= suspension_tones());
        match find_bad_tone(&self.suspensions, suspendable.as_slice()) {
            Some(i) => {
                return Err(
                    ChordTheoryError::InvalidSuspension { suspension: self.suspensions.get(i) },
                );
            },
            None => {},
        }
        let addable: [u8; 3] = [4, 6, 9];
        assert(addable@ =~= add_tones());
        match find_bad_tone(&self.adds, addable.as_slice()) {
            Some(i) => {
                let mut text = String::from_str("add");
                let digits = decimal_text(self.adds.get(i) as u64);
                text.append(digits.as_str());
                return Err(ChordTheoryError::InvalidAlteration { alteration: text });
            },
            None => {},
        }
        let omittable: [u8; 2] = [3, 5];
        assert(omittable@ =~= omit_tones());
        match find_bad_tone(&self.omits, omittable.as_slice()) {
            Some(i) => {
                let mut text = String::from_str("omit");
                let digits = decimal_text(self.omits.get(i) as u64);
                text.append(digits.as_str());
                return Err(ChordTheoryError::InvalidAlteration { alteration: text });
            },
            None => {},
        }
        self.validate_alteration_compatibility()
    }

    /// Refuses a chord that holds both forms of the fifth, both forms of the
    /// ninth, or both suspensions.
    fn validate_alteration_compatibility(&self) -> (r: ChordTheoryResult<()>)
        ensures
            r is Ok <==> !(self@.alterations.contains(seq!['b', '5'])
                && self@.alterations.contains(seq!['#', '5'])) && !(self@.alterations.contains(
                seq!['b', '9'],
            ) && self@.alterations.contains(seq!['#', '9'])) && !(self@.suspensions.contains(2)
                && self@.suspensions.contains(4)),
            r matches Err(e) ==> {
                if self@.alterations.contains(seq!['b', '5']) && self@.alterations.contains(
                    seq!['#', '5'],
                ) {
                    self@.reports(ChordFault::FifthConflict, e)
                } else if self@.alterations.contains(seq!['b', '9'])
                    && self@.alterations.contains(seq!['#', '9']) {
                    self@.reports(ChordFault::NinthConflict, e)
                } else {
                    self@.reports(ChordFault::SuspensionConflict, e)
                }
            },
    {
        proof {
            reveal_strlit("b5");
            reveal_strlit("#5");
            reveal_strlit("b9");
            reveal_strlit("#9");
            assert("b5"@ =~= seq!['b', '5']);
            assert("#5"@ =~= seq!['#', '5']);
            assert("b9"@ =~= seq!['b', '9']);
            assert("#9"@ =~= seq!['#', '9']);
        }
        if self.alterations.contains("b5") && self.alterations.contains("#5") {
            return Err(
                ChordTheoryError::IncompatibleAlterations { alterations: pair_of("b5", "#5") },
            );
        }
        if self.alterations.contains("b9") && self.alterations.contains("#9") {
            return Err(
                ChordTheoryError::IncompatibleAlterations { alterations: pair_of("b9", "#9") },
            );
        }
        if self.suspensions.contains(2) && self.suspensions.contains(4) {
            return Err(
                ChordTheoryError::IncompatibleAlterations { alterations: pair_of("sus2", "sus4") },
            );
        }
        Ok(())
    }
}

/// The texts of a sequence one after the other, each behind `prefix`.
pub open spec fn joined(prefix: Seq<char>, parts: Seq<Seq<char>>) -> Seq<char>
    decreases parts.len(),
{
    if parts.len() == 0 {
        Seq::empty()
    } else {
        joined(prefix, parts.drop_last()) + prefix + parts.last()
    }
}

/// The decimal form of each tone.
pub open spec fn tone_texts(tones: Seq<u8>) -> Seq<Seq<char>> {
    Seq::new(tones.len(), |i: int| decimal_digits(tones[i] as nat))
}

impl ChordModel {
    /// The chord in compact notation: `REST` for a rest; else the root, the
    /// type unless it is a triad, the alterations, the suspensions behind
    /// `sus`, the added tones behind `add`, the omitted tones behind `omit`,
    /// the inversion behind `/` and the applied degree behind `/V`.
    pub open spec fn text(self) -> Seq<char> {
        if self.is_rest {
            "REST"@
        } else {
            decimal_digits(self.root as nat) + (if self.chord_type != 5 {
                decimal_digits(self.chord_type as nat)
            } else {
                Seq::empty()
            }) + joined(Seq::empty(), self.alterations) + joined(
                "sus"@,
                tone_texts(self.suspensions),
            ) + joined("add"@, tone_texts(self.adds)) + joined("omit"@, tone_texts(self.omits))
                + (if self.inversion > 0 {
                "/"@ + decimal_digits(self.inversion as nat)
            } else {
                Seq::empty()
            }) + (if self.applied > 0 {
                "/V"@ + decimal_digits(self.applied as nat)
            } else {
                Seq::empty()
            })
        }
    }
}

/// Appends each tone of `tones` in decimal, each behind `prefix`.
fn append_tones(out: &mut String, prefix: &str, tones: &ToneList)
    ensures
        final(out)@ == old(out)@ + joined(prefix@, tone_texts(tones@)),
{
    let ghost start = out@;
    let ghost all = tone_texts(tones@);
    let n = tones.len();
    let mut i: usize = 0;
    assert(all.subrange(0, 0) =~= Seq::<Seq<char>>::empty());
    while i < n
        invariant
            i <= n,
            n == tones@.len(),
            all == tone_texts(tones@),
            out@ == start + joined(prefix@, all.subrange(0, i as int)),
        decreases n - i,
    {
        let digits = decimal_text(tones.get(i) as u64);
        out.append(prefix);
        out.append(digits.as_str());
        i = i + 1;
        proof {
            let now = all.subrange(0, i as int);
            assert(now.drop_last() =~= all.subrange(0, i - 1));
            assert(now.last() == digits@);
            assert(out@ =~= start + joined(prefix@, now));
        }
    }
    assert(all.subrange(0, n as int) =~= all);
}

/// Appends each text of `tags`.
fn append_tags(out: &mut String, tags: &TagList)
    ensures
        final(out)@ == old(out)@ + joined(Seq::empty(), tags@),
{
    let ghost start = out@;
    let n = tags.len();
    let mut i: usize = 0;
    assert(tags@.subrange(0, 0) =~= Seq::<Seq<char>>::empty());
    while i < n
        invariant
            i <= n,
            n == tags@.len(),
            out@ == start + joined(Seq::empty(), tags@.subrange(0, i as int)),
        decreases n - i,
    {
        out.append(tags.get(i).as_str());
        i = i + 1;
        proof {
            let now = tags@.subrange(0, i as int);
            assert(now.drop_last() =~= tags@.subrange(0, i - 1));
            assert(now.last() == tags@[i - 1]);
            assert(out@ =~= start + joined(Seq::empty(), now));
        }
    }
    assert(tags@.subrange(0, n as int) =~= tags@);
}

impl Chord {
    /// The chord with another inversion, if that is a valid chord.
    pub fn with_inversion(self, inversion: u8) -> (r: ChordTheoryResult<Self>)
        ensures
            r is Ok <==> (ChordModel { inversion, ..self@ }).valid(),
            r matches Ok(c) ==> c@ == (ChordModel { inversion, ..self@ }),
            r matches Err(e) ==> (ChordModel { inversion, ..self@ }).reports(
                (ChordModel { inversion, ..self@ }).fault()->0,
                e,
            ),
    {
        let mut chord = self;
        chord.inversion = inversion;
        match chord.validate() {
            Ok(()) => Ok(chord),
            Err(e) => Err(e),
        }
    }

    /// The chord with one more alteration, unless it has it already; refused
    /// when the result is no valid chord.
    pub fn with_alteration(self, alteration: &str) -> (r: ChordTheoryResult<Self>)
        ensures
            r is Ok <==> (ChordModel {
                alterations: ChordModel::with_tag(self@.alterations, alteration@),
                ..self@
            }).valid(),
            r matches Ok(c) ==> c@ == (ChordModel {
                alterations: ChordModel::with_tag(self@.alterations, alteration@),
                ..self@
            }),
    {
        let mut chord = self;
        if !chord.alterations.contains(alteration) {
            chord.alterations.push(String::from_str(alteration));
        }
        match chord.validate() {
            Ok(()) => Ok(chord),
            Err(e) => Err(e),
        }
    }

    /// The chord with one more suspension, unless it has it already; refused
    /// when the result is no valid chord.
    pub fn with_suspension(self, suspension: u8) -> (r: ChordTheoryResult<Self>)
        ensures
            r is Ok <==> (ChordModel {
                suspensions: ChordModel::with_tone(self@.suspensions, suspension),
                ..self@
            }).valid(),
            r matches Ok(c) ==> c@ == (ChordModel {
                suspensions: ChordModel::with_tone(self@.suspensions, suspension),
                ..self@
            }),
    {
        let mut chord = self;
        if !chord.suspensions.contains(suspension) {
            chord.suspensions.push(suspension);
        }
        match chord.validate() {
            Ok(()) => Ok(chord),
            Err(e) => Err(e),
        }
    }

    /// The chord with one more added tone, unless it has it already; refused
    /// when the result is no valid chord.
    pub fn with_add(self, add: u8) -> (r: ChordTheoryResult<Self>)
        ensures
            r is Ok <==> (ChordModel {
                adds: ChordModel::with_tone(self@.adds, add),
                ..self@
            }).valid(),
            r matches Ok(c) ==> c@ == (ChordModel {
                adds: ChordModel::with_tone(self@.adds, add),
                ..self@
            }),
    {
        let mut chord = self;
        if !chord.adds.contains(add) {
            chord.adds.push(add);
        }
        match chord.validate() {
            Ok(()) => Ok(chord),
            Err(e) => Err(e),
        }
    }

    /// The chord with one more omitted tone, unless it has it already; refused
    /// when the result is no valid chord.
    pub fn with_omit(self, omit: u8) -> (r: ChordTheoryResult<Self>)
        ensures
            r is Ok <==> (ChordModel {
                omits: ChordModel::with_tone(self@.omits, omit),
                ..self@
            }).valid(),
            r matches Ok(c) ==> c@ == (ChordModel {
                omits: ChordModel::with_tone(self@.omits, omit),
                ..self@
            }),
    {
        let mut chord = self;
        if !chord.omits.contains(omit) {
            chord.omits.push(omit);
        }
        match chord.validate() {
            Ok(()) => Ok(chord),
            Err(e) => Err(e),
        }
    }

    /// The chord as an applied chord aiming at the given degree.
    pub fn with_applied(self, applied: u8) -> (r: ChordTheoryResult<Self>)
        ensures
            r is Ok <==> (ChordModel { applied, ..self@ }).valid(),
            r matches Ok(c) ==> c@ == (ChordModel { applied, ..self@ }),
    {
        let mut chord = self;
        chord.applied = applied;
        match chord.validate() {
            Ok(()) => Ok(chord),
            Err(e) => Err(e),
        }
    }

    /// The chord borrowed from the given scale.
    pub fn with_borrowed_scale(self, scale: BorrowedScale) -> (r: ChordTheoryResult<Self>)
        ensures
            r is Ok <==> (ChordModel { borrowed: Some(scale@), ..self@ }).valid(),
            r matches Ok(c) ==> c@ == (ChordModel { borrowed: Some(scale@), ..self@ }),
    {
        let mut chord = self;
        chord.borrowed = Some(scale);
        match chord.validate() {
            Ok(()) => Ok(chord),
            Err(e) => Err(e),
        }
    }

    /// The chord at the given beat and with the given duration.
    pub fn with_timing(self, beat: Fixed, duration: Fixed) -> (c: Self)
        ensures
            c@ == (ChordModel { beat: Some(beat), duration: Some(duration), ..self@ }),
    {
        let mut chord = self;
        chord.beat = Some(beat);
        chord.duration = Some(duration);
        chord
    }

    pub fn is_triad(&self) -> (b: bool)
        ensures
            b == (self.chord_type == 5),
    {
        self.chord_type == 5
    }

    pub fn is_seventh(&self) -> (b: bool)
        ensures
            b == (self.chord_type == 7),
    {
        self.chord_type == 7
    }

    /// Whether the chord is a ninth, an eleventh or a thirteenth.
    pub fn is_extended(&self) -> (b: bool)
        ensures
            b == (self.chord_type > 7),
    {
        self.chord_type > 7
    }

    pub fn has_alterations(&self) -> (b: bool)
        ensures
            b == (self@.alterations.len() > 0),
    {
        !self.alterations.is_empty()
    }

    pub fn is_applied(&self) -> (b: bool)
        ensures
            b == (self.applied != 0),
    {
        self.applied != 0
    }

    pub fn is_borrowed(&self) -> (b: bool)
        ensures
            b == self.borrowed is Some,
    {
        self.borrowed.is_some()
    }

    pub fn has_suspensions(&self) -> (b: bool)
        ensures
            b == (self@.suspensions.len() > 0),
    {
        !self.suspensions.is_empty()
    }

    pub fn is_root_position(&self) -> (b: bool)
        ensures
            b == (self.inversion == 0),
    {
        self.inversion == 0
    }

    /// The number of tones to expect: what the type calls for, plus the added
    /// tones, minus the omitted ones.
    pub fn expected_tone_count(&self) -> (n: usize)
        requires
            self@.base_tones() + self@.adds.len() >= self@.omits.len(),
            self@.base_tones() + self@.adds.len() <= usize::MAX,
        ensures
            n == self@.base_tones() + self@.adds.len() - self@.omits.len(),
    {
        let base: usize = match self.chord_type {
            7 => 4,
            9 => 5,
            11 => 6,
            13 => 7,
            _ => 3,
        };
        base + self.adds.len() - self.omits.len()
    }

    /// The chord in compact notation.
    pub fn to_text(&self) -> (s: String)
        ensures
            s@ == self@.text(),
    {
        if self.is_rest {
            return String::from_str("REST");
        }
        let mut s = decimal_text(self.root as u64);
        if self.chord_type != 5 {
            let t = decimal_text(self.chord_type as u64);
            s.append(t.as_str());
        }
        append_tags(&mut s, &self.alterations);
        append_tones(&mut s, "sus", &self.suspensions);
        append_tones(&mut s, "add", &self.adds);
        append_tones(&mut s, "omit", &self.omits);
        if self.inversion > 0 {
            let t = decimal_text(self.inversion as u64);
            s.append("/");
            s.append(t.as_str());
        }
        if self.applied > 0 {
            let t = decimal_text(self.applied as u64);
            s.append("/V");
            s.append(t.as_str());
        }
        assert(s@ =~= self@.text());
        s
    }
}

} // verus!
