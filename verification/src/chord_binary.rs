//! The five-byte binary form of a chord.
//!
//! | byte | bits | holds |
//! |------|------|-------|
//! | 0 | 6-4 | root degree (0 for a rest) |
//! | 0 | 3, 2, 1 | added 9th, 6th, 4th |
//! | 1 | 7-6 | inversion |
//! | 1 | 5-3 | index of the chord type among 5, 7, 9, 11, 13 |
//! | 1 | 2-0 | applied degree |
//! | 2 | 5..0 | b13, #11, #9, b9, #5, b5 |
//! | 3 | 7, 6 | suspended 4th, 2nd |
//! | 3 | 5 | the borrowed scale is a numeric offset |
//! | 3 | 4-0 | index of the borrowed scale's name, or the offset plus 8 |
//! | 4 | 1, 0 | omitted 5th, 3rd |
//!
//! Every other bit is reserved and zero. The contracts state the layout in
//! arithmetic: a bit of weight `w` in a byte `b` is set when `(b / w) % 2 == 1`.

use vstd::prelude::*;
use crate::chord::{
    Chord, ChordModel, BorrowedScale, BorrowedModel, is_chord_type, is_alteration_token,
    alteration_bit, first_bad_tag,
};
use crate::error::{SerializationError, SerializationResult};
use crate::lists::{TagList, texts};
use crate::scale::ScaleType;
use crate::text::{
    text_eq, push_char, chars_of, is_alphabetic, char_is_alphabetic, to_lowercase, lowercase_of,
    decimal_text, decimal_digits,
};

verus! {

/// The binary form of a chord.
pub type ChordBinary = [u8; 5];

/// Whether the bit of weight `weight` (a power of two) is set in `byte`.
pub open spec fn bit(byte: u8, weight: int) -> bool {
    (byte as int / weight) % 2 == 1
}

/// `weight` where `present` holds, else 0.
pub open spec fn flag(present: bool, weight: int) -> int {
    if present {
        weight
    } else {
        0
    }
}

/// The one-element sequence of `value` where `present` holds, else the empty one.
pub open spec fn tone_if(present: bool, value: u8) -> Seq<u8> {
    if present {
        seq![value]
    } else {
        Seq::empty()
    }
}

/// The one-element sequence of `value` where `present` holds, else the empty one.
pub open spec fn tag_if(present: bool, value: Seq<char>) -> Seq<Seq<char>> {
    if present {
        seq![value]
    } else {
        Seq::empty()
    }
}

/// The index of a chord type among 5, 7, 9, 11, 13.
pub open spec fn type_index_of(chord_type: u8) -> Option<u8> {
    if chord_type == 5 {
        Some(0u8)
    } else if chord_type == 7 {
        Some(1u8)
    } else if chord_type == 9 {
        Some(2u8)
    } else if chord_type == 11 {
        Some(3u8)
    } else if chord_type == 13 {
        Some(4u8)
    } else {
        None
    }
}

/// The chord type at an index of the table 5, 7, 9, 11, 13.
pub open spec fn type_at(index: int) -> Option<u8> {
    if index == 0 {
        Some(5u8)
    } else if index == 1 {
        Some(7u8)
    } else if index == 2 {
        Some(9u8)
    } else if index == 3 {
        Some(11u8)
    } else if index == 4 {
        Some(13u8)
    } else {
        None
    }
}

/// The index of a scale name in the table of named scales.
pub open spec fn scale_index_of(name: Seq<char>) -> Option<u8> {
    if name == "major"@ {
        Some(0u8)
    } else if name == "minor"@ {
        Some(1u8)
    } else if name == "harmonic_minor"@ {
        Some(2u8)
    } else if name == "dorian"@ {
        Some(3u8)
    } else if name == "mixolydian"@ {
        Some(4u8)
    } else if name == "chromatic"@ {
        Some(5u8)
    } else {
        None
    }
}

/// The scale name at an index of the table of named scales.
pub open spec fn scale_name_at(index: int) -> Option<Seq<char>> {
    if index == 0 {
        Some("major"@)
    } else if index == 1 {
        Some("minor"@)
    } else if index == 2 {
        Some("harmonic_minor"@)
    } else if index == 3 {
        Some("dorian"@)
    } else if index == 4 {
        Some("mixolydian"@)
    } else if index == 5 {
        Some("chromatic"@)
    } else {
        None
    }
}

/// The index that stands for a scale type; every custom scale has index 15.
pub open spec fn scale_type_index_of(t: ScaleType) -> u8 {
    match t {
        ScaleType::Major => 0,
        ScaleType::Minor => 1,
        ScaleType::HarmonicMinor => 2,
        ScaleType::Dorian => 3,
        ScaleType::Mixolydian => 4,
        ScaleType::Chromatic => 5,
        ScaleType::Custom(_) => 15,
    }
}

/// The low six bits of byte 3: 0 without a borrowed scale, the index of a
/// named scale or of a scale type, or 32 plus the offset plus 8. `None` for a
/// name outside the table and for an offset outside -8..=23.
pub open spec fn borrowed_code(b: Option<BorrowedModel>) -> Option<u8> {
    match b {
        None => Some(0u8),
        Some(BorrowedModel::Named(name)) => scale_index_of(name),
        Some(BorrowedModel::ScaleType(t)) => Some(scale_type_index_of(t)),
        Some(BorrowedModel::Numeric(offset)) => if -8 <= offset <= 23 {
            Some((40 + offset) as u8)
        } else {
            None
        },
    }
}

/// The borrowed scale that the low six bits of byte 3 stand for.
pub open spec fn borrowed_at(code: int) -> Option<BorrowedModel> {
    if code >= 32 {
        Some(BorrowedModel::Numeric((code - 40) as i8))
    } else if code == 0 {
        None
    } else {
        Some(BorrowedModel::Named(scale_name_at(code)->0))
    }
}

/// The chords that have a binary form.
pub open spec fn encodable(m: ChordModel) -> bool {
    &&& m.root <= 7
    &&& is_chord_type(m.chord_type)
    &&& m.inversion <= 3
    &&& m.applied <= 7
    &&& first_bad_tag(m.alterations, 0) == m.alterations.len()
    &&& borrowed_code(m.borrowed) is Some
}

pub open spec fn byte_0_of(m: ChordModel) -> int {
    m.root * 16 + flag(m.adds.contains(9), 8) + flag(m.adds.contains(6), 4) + flag(
        m.adds.contains(4),
        2,
    )
}

pub open spec fn byte_1_of(m: ChordModel) -> int {
    m.inversion * 64 + type_index_of(m.chord_type)->0 * 8 + m.applied
}

pub open spec fn byte_2_of(m: ChordModel) -> int {
    flag(m.alterations.contains(seq!['b', '1', '3']), 32) + flag(
        m.alterations.contains(seq!['#', '1', '1']),
        16,
    ) + flag(m.alterations.contains(seq!['#', '9']), 8) + flag(
        m.alterations.contains(seq!['b', '9']),
        4,
    ) + flag(m.alterations.contains(seq!['#', '5']), 2) + flag(
        m.alterations.contains(seq!['b', '5']),
        1,
    )
}

pub open spec fn byte_3_of(m: ChordModel) -> int {
    flag(m.suspensions.contains(4), 128) + flag(m.suspensions.contains(2), 64) + borrowed_code(
        m.borrowed,
    )->0
}

pub open spec fn byte_4_of(m: ChordModel) -> int {
    flag(m.omits.contains(5), 2) + flag(m.omits.contains(3), 1)
}

/// The binary form of an encodable chord.
pub open spec fn encoded(m: ChordModel) -> Seq<u8> {
    seq![
        byte_0_of(m) as u8,
        byte_1_of(m) as u8,
        byte_2_of(m) as u8,
        byte_3_of(m) as u8,
        byte_4_of(m) as u8,
    ]
}

/// Five bytes with every reserved bit zero, a known chord type index and,
/// where the borrowed scale is named, a known scale index.
pub open spec fn well_formed(x: Seq<u8>) -> bool {
    &&& x.len() == 5
    &&& x[0] < 128
    &&& x[0] % 2 == 0
    &&& (x[1] / 8) % 8 <= 4
    &&& x[2] < 64
    &&& (x[3] % 64 >= 32 || x[3] % 64 <= 5)
    &&& x[4] < 4
}

/// The chord that five well-formed bytes stand for. Its lists hold their
/// items in the order of the bits, highest first.
pub open spec fn decoded(x: Seq<u8>) -> ChordModel {
    ChordModel {
        root: ((x[0] / 16) % 8) as u8,
        chord_type: type_at(((x[1] / 8) % 8) as int)->0,
        inversion: (x[1] / 64) as u8,
        applied: (x[1] % 8) as u8,
        adds: tone_if(bit(x[0], 8), 9) + tone_if(bit(x[0], 4), 6) + tone_if(bit(x[0], 2), 4),
        omits: tone_if(bit(x[4], 2), 5) + tone_if(bit(x[4], 1), 3),
        alterations: alteration_list(
            bit(x[2], 32),
            bit(x[2], 16),
            bit(x[2], 8),
            bit(x[2], 4),
            bit(x[2], 2),
            bit(x[2], 1),
        ),
        suspensions: tone_if(bit(x[3], 128), 4) + tone_if(bit(x[3], 64), 2),
        borrowed: borrowed_at((x[3] % 64) as int),
        pedal: None,
        alternate: Seq::empty(),
        substitutions: Seq::empty(),
        is_rest: (x[0] / 16) % 8 == 0,
        beat: None,
        duration: None,
    }
}

/// The byte sequences that stand for a chord: well formed, and the chord is valid.
pub open spec fn decodable(x: Seq<u8>) -> bool {
    well_formed(x) && decoded(x).valid()
}

/// A chord is in canonical form when it is exactly what its own binary form
/// says: each list holds its items once, in the order of the bits; the
/// borrowed scale is absent, a name of the table other than the first, or an
/// offset; it is a rest exactly when its root is 0; and it carries nothing
/// that the binary form leaves out.
pub open spec fn canonical(m: ChordModel) -> bool {
    &&& m.is_rest == (m.root == 0)
    &&& m.adds == tone_if(m.adds.contains(9), 9) + tone_if(m.adds.contains(6), 6) + tone_if(
        m.adds.contains(4),
        4,
    )
    &&& m.omits == tone_if(m.omits.contains(5), 5) + tone_if(m.omits.contains(3), 3)
    &&& m.suspensions == tone_if(m.suspensions.contains(4), 4) + tone_if(
        m.suspensions.contains(2),
        2,
    )
    &&& m.alterations == alteration_list(
        m.alterations.contains(seq!['b', '1', '3']),
        m.alterations.contains(seq!['#', '1', '1']),
        m.alterations.contains(seq!['#', '9']),
        m.alterations.contains(seq!['b', '9']),
        m.alterations.contains(seq!['#', '5']),
        m.alterations.contains(seq!['b', '5']),
    )
    &&& borrowed_round_trips(m.borrowed)
    &&& m.pedal is None
    &&& m.alternate == Seq::<char>::empty()
    &&& m.substitutions == Seq::<Seq<char>>::empty()
    &&& m.beat is None
    &&& m.duration is None
}

/// The six scale names are what they spell, and no two are equal.
pub proof fn lemma_scale_names()
    ensures
        forall|i: int| 0 <= i <= 5 ==> scale_index_of(#[trigger] scale_name_at(i)->0) == Some(
            i as u8,
        ),
        forall|name: Seq<char>|
            scale_index_of(name) is Some ==> #[trigger] scale_name_at(
                scale_index_of(name)->0 as int,
            ) == Some(name),
{
    reveal_strlit("major");
    reveal_strlit("minor");
    reveal_strlit("harmonic_minor");
    reveal_strlit("dorian");
    reveal_strlit("mixolydian");
    reveal_strlit("chromatic");
    assert("major"@.len() == 5 && "minor"@.len() == 5 && "harmonic_minor"@.len() == 14);
    assert("dorian"@.len() == 6 && "mixolydian"@.len() == 10 && "chromatic"@.len() == 9);
    assert("major"@[1] == 'a' && "minor"@[1] == 'i');
    assert(scale_index_of(scale_name_at(0)->0) == Some(0u8));
    assert(scale_index_of(scale_name_at(1)->0) == Some(1u8));
    assert(scale_index_of(scale_name_at(2)->0) == Some(2u8));
    assert(scale_index_of(scale_name_at(3)->0) == Some(3u8));
    assert(scale_index_of(scale_name_at(4)->0) == Some(4u8));
    assert(scale_index_of(scale_name_at(5)->0) == Some(5u8));
}

/// A failure to encode or decode chord data, with what was wrong.
fn chord_data_error(what: &str) -> (e: SerializationError)
    ensures
        e matches SerializationError::InvalidChordData { field } && field@ == what@,
{
    SerializationError::InvalidChordData { field: String::from_str(what) }
}

/// A failure to encode chord data, with the value that was wrong between
/// what is said before and behind it.
fn chord_value_error(before: &str, value: &str, after: &str) -> (e: SerializationError)
    ensures
        e matches SerializationError::InvalidChordData { field } && field@ == before@ + value@
            + after@,
{
    let mut field = String::from_str(before);
    field.append(value);
    field.append(after);
    SerializationError::InvalidChordData { field }
}

/// A failure to encode chord data, with the value that was wrong behind
/// what is said of it.
fn chord_tail_error(before: &str, value: &str) -> (e: SerializationError)
    ensures
        e matches SerializationError::InvalidChordData { field } && field@ == before@ + value@,
{
    let mut field = String::from_str(before);
    field.append(value);
    SerializationError::InvalidChordData { field }
}

/// A number with its sign in decimal.
pub open spec fn signed_digits(n: int) -> Seq<char> {
    if n >= 0 {
        decimal_digits(n as nat)
    } else {
        "-"@ + decimal_digits((-n) as nat)
    }
}

/// What keeps the borrowed scale of a chord from having a code, in words.
pub open spec fn borrowed_fault(b: Option<BorrowedModel>) -> Seq<char> {
    match b {
        Some(BorrowedModel::Named(name)) => "unknown scale name "@ + name,
        Some(BorrowedModel::Numeric(offset)) => "numeric offset "@ + signed_digits(offset as int)
            + " out of range -8 to +23"@,
        _ => Seq::empty(),
    }
}

/// What keeps byte 1 of a chord from being made, in words: the inversion,
/// then the chord type, then the applied degree.
pub open spec fn byte_1_fault(m: ChordModel) -> Seq<char> {
    if m.inversion > 3 {
        "inversion "@ + decimal_digits(m.inversion as nat) + " out of range 0-3"@
    } else if !is_chord_type(m.chord_type) {
        "unsupported chord type "@ + decimal_digits(m.chord_type as nat)
    } else {
        "applied "@ + decimal_digits(m.applied as nat) + " out of range 0-7"@
    }
}

/// What keeps a chord from having a binary form, in words: the first of
/// its root, its inversion, its type, its applied degree, its first
/// alteration that is no token, and its borrowed scale.
pub open spec fn encoding_fault(m: ChordModel) -> Seq<char> {
    if m.root > 7 {
        "root "@ + decimal_digits(m.root as nat) + " out of range 0-7"@
    } else if m.inversion > 3 || !is_chord_type(m.chord_type) || m.applied > 7 {
        byte_1_fault(m)
    } else if first_bad_tag(m.alterations, 0) < m.alterations.len() {
        "unsupported alteration "@ + m.alterations[first_bad_tag(m.alterations, 0)]
    } else {
        borrowed_fault(m.borrowed)
    }
}

/// The index of a scale name in the table of named scales.
pub fn get_scale_index(scale_name: &str) -> (r: SerializationResult<u8>)
    ensures
        r is Ok <==> scale_index_of(scale_name@) is Some,
        r matches Ok(i) ==> scale_index_of(scale_name@) == Some(i),
        r matches Err(e) ==> e matches SerializationError::InvalidChordData { field } && field@
            == "unknown scale name "@ + scale_name@,
{
    if text_eq(scale_name, "major") {
        Ok(0)
    } else if text_eq(scale_name, "minor") {
        Ok(1)
    } else if text_eq(scale_name, "harmonic_minor") {
        Ok(2)
    } else if text_eq(scale_name, "dorian") {
        Ok(3)
    } else if text_eq(scale_name, "mixolydian") {
        Ok(4)
    } else if text_eq(scale_name, "chromatic") {
        Ok(5)
    } else {
        Err(chord_tail_error("unknown scale name ", scale_name))
    }
}

/// The index that stands for a scale type.
pub fn get_scale_type_index(scale_type: &ScaleType) -> (r: SerializationResult<u8>)
    ensures
        r == Ok::<u8, SerializationError>(scale_type_index_of(*scale_type)),
{
    Ok(
        match scale_type {
            ScaleType::Major => 0,
            ScaleType::Minor => 1,
            ScaleType::HarmonicMinor => 2,
            ScaleType::Dorian => 3,
            ScaleType::Mixolydian => 4,
            ScaleType::Chromatic => 5,
            ScaleType::Custom(_) => 15,
        },
    )
}

/// The scale name at an index of the table of named scales.
pub fn get_scale_name_from_index(index: u8) -> (r: SerializationResult<String>)
    ensures
        r is Ok <==> index <= 5,
        r matches Ok(name) ==> Some(name@) == scale_name_at(index as int),
        r matches Err(e) ==> e is InvalidChordData,
{
    if index == 0 {
        Ok(String::from_str("major"))
    } else if index == 1 {
        Ok(String::from_str("minor"))
    } else if index == 2 {
        Ok(String::from_str("harmonic_minor"))
    } else if index == 3 {
        Ok(String::from_str("dorian"))
    } else if index == 4 {
        Ok(String::from_str("mixolydian"))
    } else if index == 5 {
        Ok(String::from_str("chromatic"))
    } else {
        Err(chord_data_error("unknown scale index"))
    }
}

/// A number with its sign in decimal.
fn signed_text(n: i8) -> (s: String)
    ensures
        s@ == signed_digits(n as int),
{
    if n >= 0 {
        decimal_text(n as u64)
    } else {
        let mut s = String::from_str("-");
        s.append(decimal_text((-(n as i64)) as u64).as_str());
        s
    }
}

/// `weight` where `present` holds, else 0.
fn weight_if(present: bool, weight: u8) -> (w: u8)
    ensures
        w == flag(present, weight as int),
{
    if present {
        weight
    } else {
        0
    }
}

/// Byte 0: the root and the added tones. Refused for a root above 7.
pub fn encode_byte_0(chord: &Chord) -> (r: SerializationResult<u8>)
    ensures
        r is Ok <==> chord.root <= 7,
        r matches Ok(b) ==> b == byte_0_of(chord@),
        r matches Err(e) ==> e matches SerializationError::InvalidChordData { field } && field@
            == "root "@ + decimal_digits(chord.root as nat) + " out of range 0-7"@,
{
    if chord.root > 7 {
        return Err(
            chord_value_error(
                "root ",
                decimal_text(chord.root as u64).as_str(),
                " out of range 0-7",
            ),
        );
    }
    Ok(
        chord.root * 16 + weight_if(chord.adds.contains(9), 8) + weight_if(
            chord.adds.contains(6),
            4,
        ) + weight_if(chord.adds.contains(4), 2),
    )
}

/// Byte 1: inversion, chord type and applied degree. Refused for an inversion
/// above 3, a chord type outside the table and an applied degree above 7.
pub fn encode_byte_1(chord: &Chord) -> (r: SerializationResult<u8>)
    ensures
        r is Ok <==> chord.inversion <= 3 && is_chord_type(chord.chord_type) && chord.applied
            <= 7,
        r matches Ok(b) ==> b == byte_1_of(chord@),
        r matches Err(e) ==> e matches SerializationError::InvalidChordData { field } && field@
            == byte_1_fault(chord@),
{
    if chord.inversion > 3 {
        return Err(
            chord_value_error(
                "inversion ",
                decimal_text(chord.inversion as u64).as_str(),
                " out of range 0-3",
            ),
        );
    }
    let type_index: u8 = match chord.chord_type {
        5 => 0,
        7 => 1,
        9 => 2,
        11 => 3,
        13 => 4,
        _ => {
            return Err(
                chord_tail_error(
                    "unsupported chord type ",
                    decimal_text(chord.chord_type as u64).as_str(),
                ),
            );
        },
    };
    if chord.applied > 7 {
        return Err(
            chord_value_error(
                "applied ",
                decimal_text(chord.applied as u64).as_str(),
                " out of range 0-7",
            ),
        );
    }
    Ok(chord.inversion * 64 + type_index * 8 + chord.applied)
}

/// Byte 2: one bit for each alteration. Refused where an alteration is none
/// of the six tokens.
pub fn encode_byte_2(chord: &Chord) -> (r: SerializationResult<u8>)
    ensures
        r is Ok <==> first_bad_tag(chord@.alterations, 0) == chord@.alterations.len(),
        r matches Ok(b) ==> b == byte_2_of(chord@),
        r matches Err(e) ==> e matches SerializationError::InvalidChordData { field } && field@
            == "unsupported alteration "@ + chord@.alterations[first_bad_tag(
            chord@.alterations,
            0,
        )],
{
    let n = chord.alterations.len();
    let mut i: usize = 0;
    while i < n
        invariant
            i <= n,
            n == chord@.alterations.len(),
            first_bad_tag(chord@.alterations, 0) == first_bad_tag(chord@.alterations, i as int),
        decreases n - i,
    {
        if alteration_bit(chord.alterations.get(i).as_str()).is_none() {
            return Err(
                chord_tail_error(
                    "unsupported alteration ",
                    chord.alterations.get(i).as_str(),
                ),
            );
        }
        i = i + 1;
    }
    proof {
        reveal_strlit("b13");
        reveal_strlit("#11");
        reveal_strlit("#9");
        reveal_strlit("b9");
        reveal_strlit("#5");
        reveal_strlit("b5");
        assert("b13"@ =~= seq!['b', '1', '3']);
        assert("#11"@ =~= seq!['#', '1', '1']);
        assert("#9"@ =~= seq!['#', '9']);
        assert("b9"@ =~= seq!['b', '9']);
        assert("#5"@ =~= seq!['#', '5']);
        assert("b5"@ =~= seq!['b', '5']);
    }
    let a = &chord.alterations;
    Ok(
        weight_if(a.contains("b13"), 32) + weight_if(a.contains("#11"), 16) + weight_if(
            a.contains("#9"),
            8,
        ) + weight_if(a.contains("b9"), 4) + weight_if(a.contains("#5"), 2) + weight_if(
            a.contains("b5"),
            1,
        ),
    )
}

/// Byte 3: the suspensions and the borrowed scale. Refused for a scale name
/// outside the table and for a numeric offset outside -8..=23.
pub fn encode_byte_3(chord: &Chord) -> (r: SerializationResult<u8>)
    ensures
        r is Ok <==> borrowed_code(chord@.borrowed) is Some,
        r matches Ok(b) ==> b == byte_3_of(chord@),
        r matches Err(e) ==> e matches SerializationError::InvalidChordData { field } && field@
            == borrowed_fault(chord@.borrowed),
{
    let code: u8 = match &chord.borrowed {
        None => 0,
        Some(BorrowedScale::Named(name)) => {
            match get_scale_index(name.as_str()) {
                Ok(index) => index,
                Err(e) => {
                    return Err(e);
                },
            }
        },
        Some(BorrowedScale::ScaleType(scale_type)) => {
            match get_scale_type_index(scale_type) {
                Ok(index) => index,
                Err(e) => {
                    return Err(e);
                },
            }
        },
        Some(BorrowedScale::Numeric(offset)) => {
            let o: i8 = *offset;
            if o < -8 || o > 23 {
                return Err(
                    chord_value_error(
                        "numeric offset ",
                        signed_text(o).as_str(),
                        " out of range -8 to +23",
                    ),
                );
            }
            (40 + o) as u8
        },
    };
    Ok(
        weight_if(chord.suspensions.contains(4), 128) + weight_if(
            chord.suspensions.contains(2),
            64,
        ) + code,
    )
}

/// Byte 4: the omitted tones.
pub fn encode_byte_4(chord: &Chord) -> (r: SerializationResult<u8>)
    ensures
        r matches Ok(b) && b == byte_4_of(chord@),
{
    Ok(weight_if(chord.omits.contains(5), 2) + weight_if(chord.omits.contains(3), 1))
}

/// The binary form of a chord. It is refused exactly when the chord is not
/// encodable: a root above 7, a chord type outside 5, 7, 9, 11, 13, an
/// inversion above 3, an applied degree above 7, an alteration that is none
/// of the six tokens, a borrowed scale name outside the table, or a numeric
/// offset outside -8..=23.
pub fn serialize_chord(chord: &Chord) -> (r: SerializationResult<ChordBinary>)
    ensures
        r is Ok <==> encodable(chord@),
        r matches Ok(binary) ==> binary@ == encoded(chord@),
        r matches Err(e) ==> e matches SerializationError::InvalidChordData { field } && field@
            == encoding_fault(chord@),
{
    let b0 = match encode_byte_0(chord) {
        Ok(b) => b,
        Err(e) => {
            return Err(e);
        },
    };
    let b1 = match encode_byte_1(chord) {
        Ok(b) => b,
        Err(e) => {
            return Err(e);
        },
    };
    let b2 = match encode_byte_2(chord) {
        Ok(b) => b,
        Err(e) => {
            proof {
                lemma_bad_tag_range(chord@.alterations, 0);
            }
            return Err(e);
        },
    };
    let b3 = match encode_byte_3(chord) {
        Ok(b) => b,
        Err(e) => {
            return Err(e);
        },
    };
    let b4 = match encode_byte_4(chord) {
        Ok(b) => b,
        Err(e) => {
            return Err(e);
        },
    };
    let binary: ChordBinary = [b0, b1, b2, b3, b4];
    assert(binary@ =~= encoded(chord@));
    Ok(binary)
}

/// Sets the root, the rest flag and the added tones from byte 0. Refused
/// where a reserved bit is set; the chord is then left as it was.
pub fn decode_byte_0(chord: &mut Chord, byte: u8) -> (r: SerializationResult<()>)
    ensures
        r is Ok <==> byte < 128 && byte % 2 == 0,
        r is Ok ==> final(chord)@ == (ChordModel {
            root: ((byte / 16) % 8) as u8,
            is_rest: (byte / 16) % 8 == 0,
            adds: old(chord)@.adds + tone_if(bit(byte, 8), 9) + tone_if(bit(byte, 4), 6)
                + tone_if(bit(byte, 2), 4),
            ..old(chord)@
        }),
        r matches Err(e) ==> e is InvalidChordData && final(chord)@ == old(chord)@,
{
    if byte >= 128 || byte % 2 != 0 {
        return Err(chord_data_error("reserved bit set in byte 0"));
    }
    chord.root = (byte / 16) % 8;
    chord.is_rest = chord.root == 0;
    let ghost before = chord.adds@;
    if (byte / 8) % 2 == 1 {
        chord.adds.push(9);
    }
    if (byte / 4) % 2 == 1 {
        chord.adds.push(6);
    }
    if (byte / 2) % 2 == 1 {
        chord.adds.push(4);
    }
    assert(chord.adds@ =~= before + tone_if(bit(byte, 8), 9) + tone_if(bit(byte, 4), 6) + tone_if(
        bit(byte, 2),
        4,
    ));
    Ok(())
}

/// Sets inversion, chord type and applied degree from byte 1. Refused for a
/// chord type index above 4; the chord is then left as it was.
pub fn decode_byte_1(chord: &mut Chord, byte: u8) -> (r: SerializationResult<()>)
    ensures
        r is Ok <==> (byte / 8) % 8 <= 4,
        r is Ok ==> final(chord)@ == (ChordModel {
            inversion: (byte / 64) as u8,
            chord_type: type_at(((byte / 8) % 8) as int)->0,
            applied: (byte % 8) as u8,
            ..old(chord)@
        }),
        r matches Err(e) ==> e is InvalidChordData && final(chord)@ == old(chord)@,
{
    let type_index = (byte / 8) % 8;
    let chord_type: u8 = match type_index {
        0 => 5,
        1 => 7,
        2 => 9,
        3 => 11,
        4 => 13,
        _ => {
            return Err(chord_data_error("invalid chord type index"));
        },
    };
    chord.inversion = byte / 64;
    chord.chord_type = chord_type;
    chord.applied = byte % 8;
    Ok(())
}

/// Appends a tag to a list where a bit is set.
fn push_tag_if(list: &mut TagList, set: bool, tag: &str)
    ensures
        final(list)@ == old(list)@ + tag_if(set, tag@),
{
    let ghost before = list@;
    if set {
        list.push(String::from_str(tag));
        assert(list@ =~= before + tag_if(set, tag@));
    } else {
        assert(list@ =~= before + tag_if(set, tag@));
    }
}

/// Appends the alterations whose bits are set in byte 2, highest bit first.
/// Refused where a reserved bit is set; the chord is then left as it was.
pub fn decode_byte_2(chord: &mut Chord, byte: u8) -> (r: SerializationResult<()>)
    ensures
        r is Ok <==> byte < 64,
        r is Ok ==> final(chord)@ == (ChordModel {
            alterations: old(chord)@.alterations + tag_if(bit(byte, 32), seq!['b', '1', '3'])
                + tag_if(bit(byte, 16), seq!['#', '1', '1']) + tag_if(
                bit(byte, 8),
                seq!['#', '9'],
            ) + tag_if(bit(byte, 4), seq!['b', '9']) + tag_if(bit(byte, 2), seq!['#', '5'])
                + tag_if(bit(byte, 1), seq!['b', '5']),
            ..old(chord)@
        }),
        r matches Err(e) ==> e is InvalidChordData && final(chord)@ == old(chord)@,
{
    if byte >= 64 {
        return Err(chord_data_error("reserved bit set in byte 2"));
    }
    proof {
        reveal_strlit("b13");
        reveal_strlit("#11");
        reveal_strlit("#9");
        reveal_strlit("b9");
        reveal_strlit("#5");
        reveal_strlit("b5");
        assert("b13"@ =~= seq!['b', '1', '3']);
        assert("#11"@ =~= seq!['#', '1', '1']);
        assert("#9"@ =~= seq!['#', '9']);
        assert("b9"@ =~= seq!['b', '9']);
        assert("#5"@ =~= seq!['#', '5']);
        assert("b5"@ =~= seq!['b', '5']);
    }
    push_tag_if(&mut chord.alterations, (byte / 32) % 2 == 1, "b13");
    push_tag_if(&mut chord.alterations, (byte / 16) % 2 == 1, "#11");
    push_tag_if(&mut chord.alterations, (byte / 8) % 2 == 1, "#9");
    push_tag_if(&mut chord.alterations, (byte / 4) % 2 == 1, "b9");
    push_tag_if(&mut chord.alterations, (byte / 2) % 2 == 1, "#5");
    push_tag_if(&mut chord.alterations, byte % 2 == 1, "b5");
    Ok(())
}

/// Appends the suspensions and sets the borrowed scale from byte 3. With bit
/// 5 set the low five bits are a numeric offset plus 8; without it they are 0
/// for no borrowed scale or the index of a scale name. Refused for an index
/// outside the table; the chord is then left as it was.
pub fn decode_byte_3(chord: &mut Chord, byte: u8) -> (r: SerializationResult<()>)
    ensures
        r is Ok <==> (byte % 64 >= 32 || byte % 64 <= 5),
        r is Ok ==> final(chord)@ == (ChordModel {
            suspensions: old(chord)@.suspensions + tone_if(bit(byte, 128), 4) + tone_if(
                bit(byte, 64),
                2,
            ),
            borrowed: borrowed_at((byte % 64) as int),
            ..old(chord)@
        }),
        r matches Err(e) ==> e is InvalidChordData && final(chord)@ == old(chord)@,
{
    let code = byte % 64;
    let borrowed: Option<BorrowedScale> = if code >= 32 {
        Some(BorrowedScale::Numeric(((code as i16) - 40) as i8))
    } else if code == 0 {
        None
    } else {
        match get_scale_name_from_index(code) {
            Ok(name) => Some(BorrowedScale::Named(name)),
            Err(e) => {
                return Err(e);
            },
        }
    };
    let ghost before = chord.suspensions@;
    if byte / 128 == 1 {
        chord.suspensions.push(4);
    }
    if (byte / 64) % 2 == 1 {
        chord.suspensions.push(2);
    }
    chord.borrowed = borrowed;
    assert(chord.suspensions@ =~= before + tone_if(bit(byte, 128), 4) + tone_if(
        bit(byte, 64),
        2,
    ));
    Ok(())
}

/// Appends the omitted tones whose bits are set in byte 4. Refused where a
/// reserved bit is set; the chord is then left as it was.
pub fn decode_byte_4(chord: &mut Chord, byte: u8) -> (r: SerializationResult<()>)
    ensures
        r is Ok <==> byte < 4,
        r is Ok ==> final(chord)@ == (ChordModel {
            omits: old(chord)@.omits + tone_if(bit(byte, 2), 5) + tone_if(bit(byte, 1), 3),
            ..old(chord)@
        }),
        r matches Err(e) ==> e is InvalidChordData && final(chord)@ == old(chord)@,
{
    if byte >= 4 {
        return Err(chord_data_error("reserved bit set in byte 4"));
    }
    let ghost before = chord.omits@;
    if (byte / 2) % 2 == 1 {
        chord.omits.push(5);
    }
    if byte % 2 == 1 {
        chord.omits.push(3);
    }
    assert(chord.omits@ =~= before + tone_if(bit(byte, 2), 5) + tone_if(bit(byte, 1), 3));
    Ok(())
}

/// The chord that five bytes stand for. It is refused exactly when the bytes
/// are not decodable: a reserved bit is set, the chord type index or the
/// scale index is outside its table, or the chord they spell is not valid.
pub fn deserialize_chord(binary: &ChordBinary) -> (r: SerializationResult<Chord>)
    ensures
        r is Ok <==> decodable(binary@),
        r matches Ok(chord) ==> chord@ == decoded(binary@),
        r matches Err(e) ==> e is InvalidChordData,
{
    let mut chord = Chord::default();
    match decode_byte_0(&mut chord, binary[0]) {
        Ok(()) => {},
        Err(e) => {
            return Err(e);
        },
    }
    match decode_byte_1(&mut chord, binary[1]) {
        Ok(()) => {},
        Err(e) => {
            return Err(e);
        },
    }
    match decode_byte_2(&mut chord, binary[2]) {
        Ok(()) => {},
        Err(e) => {
            return Err(e);
        },
    }
    match decode_byte_3(&mut chord, binary[3]) {
        Ok(()) => {},
        Err(e) => {
            return Err(e);
        },
    }
    match decode_byte_4(&mut chord, binary[4]) {
        Ok(()) => {},
        Err(e) => {
            return Err(e);
        },
    }
    proof {
        let d = decoded(binary@);
        assert(chord@.adds =~= d.adds);
        assert(chord@.omits =~= d.omits);
        assert(chord@.alterations =~= d.alterations);
        assert(chord@.suspensions =~= d.suspensions);
        assert(chord@ == d);
    }
    match chord.validate() {
        Ok(()) => Ok(chord),
        Err(_) => Err(chord_data_error("the decoded chord is not valid")),
    }
}

/// What a sequence holds after one more optional item.
proof fn lemma_tone_if_contains()
    ensures
        forall|s: Seq<u8>, b: bool, v: u8, w: u8| #[trigger]
            (s + tone_if(b, v)).contains(w) <==> s.contains(w) || (b && v == w),
        forall|w: u8| !(#[trigger] Seq::<u8>::empty().contains(w)),
{
    assert forall|s: Seq<u8>, b: bool, v: u8, w: u8| #[trigger]
        (s + tone_if(b, v)).contains(w) <==> s.contains(w) || (b && v == w) by {
        let t = s + tone_if(b, v);
        if s.contains(w) {
            let i = choose|i: int| 0 <= i < s.len() && s[i] == w;
            assert(t[i] == w);
        }
        if b && v == w {
            assert(t[s.len() as int] == w);
        }
        if t.contains(w) {
            let i = choose|i: int| 0 <= i < t.len() && t[i] == w;
            if i < s.len() {
                assert(s[i] == w);
            }
        }
    }
}

/// What a sequence holds after one more optional item.
proof fn lemma_tag_if_contains()
    ensures
        forall|s: Seq<Seq<char>>, b: bool, v: Seq<char>, w: Seq<char>| #[trigger]
            (s + tag_if(b, v)).contains(w) <==> s.contains(w) || (b && v == w),
        forall|w: Seq<char>| !(#[trigger] Seq::<Seq<char>>::empty().contains(w)),
{
    assert forall|s: Seq<Seq<char>>, b: bool, v: Seq<char>, w: Seq<char>| #[trigger]
        (s + tag_if(b, v)).contains(w) <==> s.contains(w) || (b && v == w) by {
        let t = s + tag_if(b, v);
        if s.contains(w) {
            let i = choose|i: int| 0 <= i < s.len() && s[i] == w;
            assert(t[i] == w);
        }
        if b && v == w {
            assert(t[s.len() as int] == w);
        }
        if t.contains(w) {
            let i = choose|i: int| 0 <= i < t.len() && t[i] == w;
            if i < s.len() {
                assert(s[i] == w);
            }
        }
    }
}

/// The six alteration tokens differ from one another.
proof fn lemma_tokens_differ()
    ensures
        seq!['b', '1', '3'] != seq!['#', '1', '1'],
        seq!['b', '1', '3'].len() == 3,
        seq!['#', '1', '1'].len() == 3,
        seq!['#', '9'].len() == 2,
        seq!['b', '9'].len() == 2,
        seq!['#', '5'].len() == 2,
        seq!['b', '5'].len() == 2,
        seq!['#', '9'] != seq!['b', '9'],
        seq!['#', '9'] != seq!['#', '5'],
        seq!['#', '9'] != seq!['b', '5'],
        seq!['b', '9'] != seq!['#', '5'],
        seq!['b', '9'] != seq!['b', '5'],
        seq!['#', '5'] != seq!['b', '5'],
{
    assert(seq!['b', '1', '3'][0] == 'b' && seq!['#', '1', '1'][0] == '#');
    assert(seq!['#', '9'][0] == '#' && seq!['#', '9'][1] == '9');
    assert(seq!['b', '9'][0] == 'b' && seq!['b', '9'][1] == '9');
    assert(seq!['#', '5'][0] == '#' && seq!['#', '5'][1] == '5');
    assert(seq!['b', '5'][0] == 'b' && seq!['b', '5'][1] == '5');
}

/// The first text that is no alteration token is found within the list,
/// or at its end.
proof fn lemma_bad_tag_range(s: Seq<Seq<char>>, from: int)
    requires
        0 <= from <= s.len(),
    ensures
        from <= first_bad_tag(s, from) <= s.len(),
    decreases s.len() - from,
{
    if from < s.len() && is_alteration_token(s[from]) {
        lemma_bad_tag_range(s, from + 1);
    }
}

/// Where every text from `from` on is an alteration token, none is found
/// that is none.
proof fn lemma_no_bad_tag(s: Seq<Seq<char>>, from: int)
    requires
        0 <= from <= s.len(),
        forall|i: int| from <= i < s.len() ==> is_alteration_token(#[trigger] s[i]),
    ensures
        first_bad_tag(s, from) == s.len(),
    decreases s.len() - from,
{
    if from < s.len() {
        lemma_no_bad_tag(s, from + 1);
    }
}

/// Where no text of a list is a bad one, every text is an alteration token.
proof fn lemma_all_tags_good(s: Seq<Seq<char>>, from: int)
    requires
        0 <= from <= s.len(),
        first_bad_tag(s, from) == s.len(),
    ensures
        forall|i: int| from <= i < s.len() ==> is_alteration_token(#[trigger] s[i]),
    decreases s.len() - from,
{
    if from < s.len() {
        lemma_all_tags_good(s, from + 1);
    }
}

/// The fields of byte 0 can be read back from their sum.
proof fn lemma_byte_0(root: u8, a: bool, b: bool, c: bool)
    requires
        root <= 7,
    ensures
        ({
            let v = root * 16 + flag(a, 8) + flag(b, 4) + flag(c, 2);
            &&& 0 <= v < 128
            &&& v % 2 == 0
            &&& (v as u8 / 16) % 8 == root
            &&& bit(v as u8, 8) == a
            &&& bit(v as u8, 4) == b
            &&& bit(v as u8, 2) == c
        }),
{
}

/// Byte 0 is the sum of its fields.
proof fn lemma_byte_0_sum(x: u8)
    requires
        x < 128,
        x % 2 == 0,
    ensures
        x == ((x / 16) % 8) * 16 + flag(bit(x, 8), 8) + flag(bit(x, 4), 4) + flag(bit(x, 2), 2),
{
}

/// The fields of byte 1 can be read back from their sum.
proof fn lemma_byte_1(inversion: u8, index: u8, applied: u8)
    requires
        inversion <= 3,
        index <= 4,
        applied <= 7,
    ensures
        ({
            let v = inversion * 64 + index * 8 + applied;
            &&& 0 <= v < 256
            &&& v as u8 / 64 == inversion
            &&& (v as u8 / 8) % 8 == index
            &&& v as u8 % 8 == applied
        }),
{
}

/// The flags of byte 2 can be read back from their sum.
proof fn lemma_byte_2(a: bool, b: bool, c: bool, d: bool, e: bool, f: bool)
    ensures
        ({
            let v = flag(a, 32) + flag(b, 16) + flag(c, 8) + flag(d, 4) + flag(e, 2) + flag(f, 1);
            &&& 0 <= v < 64
            &&& bit(v as u8, 32) == a
            &&& bit(v as u8, 16) == b
            &&& bit(v as u8, 8) == c
            &&& bit(v as u8, 4) == d
            &&& bit(v as u8, 2) == e
            &&& bit(v as u8, 1) == f
        }),
{
}

/// Byte 2 is the sum of its flags.
proof fn lemma_byte_2_sum(x: u8)
    requires
        x < 64,
    ensures
        x == flag(bit(x, 32), 32) + flag(bit(x, 16), 16) + flag(bit(x, 8), 8) + flag(
            bit(x, 4),
            4,
        ) + flag(bit(x, 2), 2) + flag(bit(x, 1), 1),
{
}

/// The fields of byte 3 can be read back from their sum.
proof fn lemma_byte_3(a: bool, b: bool, code: u8)
    requires
        code < 64,
    ensures
        ({
            let v = flag(a, 128) + flag(b, 64) + code;
            &&& 0 <= v < 256
            &&& bit(v as u8, 128) == a
            &&& bit(v as u8, 64) == b
            &&& v as u8 % 64 == code
        }),
{
}

/// Byte 3 is the sum of its fields.
proof fn lemma_byte_3_sum(x: u8)
    ensures
        x == flag(bit(x, 128), 128) + flag(bit(x, 64), 64) + x % 64,
{
}

/// The flags of byte 4 can be read back from their sum.
proof fn lemma_byte_4(a: bool, b: bool)
    ensures
        ({
            let v = flag(a, 2) + flag(b, 1);
            &&& 0 <= v < 4
            &&& bit(v as u8, 2) == a
            &&& bit(v as u8, 1) == b
        }),
{
}

/// Byte 4 is the sum of its flags.
proof fn lemma_byte_4_sum(x: u8)
    requires
        x < 4,
    ensures
        x == flag(bit(x, 2), 2) + flag(bit(x, 1), 1),
{
}

/// What a list of up to three distinct optional tones holds.
proof fn lemma_tones_held(a: bool, x: u8, b: bool, y: u8, c: bool, z: u8)
    requires
        x != y,
        x != z,
        y != z,
    ensures
        ({
            let s = tone_if(a, x) + tone_if(b, y) + tone_if(c, z);
            &&& s.contains(x) == a
            &&& s.contains(y) == b
            &&& s.contains(z) == c
            &&& forall|w: u8| s.contains(w) ==> w == x || w == y || w == z
        }),
{
    lemma_tone_if_contains();
    assert(tone_if(a, x) =~= Seq::<u8>::empty() + tone_if(a, x));
}

/// What a list of up to two distinct optional tones holds.
proof fn lemma_tone_pair_held(a: bool, x: u8, b: bool, y: u8)
    requires
        x != y,
    ensures
        ({
            let s = tone_if(a, x) + tone_if(b, y);
            &&& s.contains(x) == a
            &&& s.contains(y) == b
            &&& forall|w: u8| s.contains(w) ==> w == x || w == y
        }),
{
    lemma_tone_if_contains();
    assert(tone_if(a, x) =~= Seq::<u8>::empty() + tone_if(a, x));
}

/// The list of the alterations whose flags are set.
pub open spec fn alteration_list(a: bool, b: bool, c: bool, d: bool, e: bool, f: bool) -> Seq<
    Seq<char>,
> {
    tag_if(a, seq!['b', '1', '3']) + tag_if(b, seq!['#', '1', '1']) + tag_if(c, seq!['#', '9'])
        + tag_if(d, seq!['b', '9']) + tag_if(e, seq!['#', '5']) + tag_if(f, seq!['b', '5'])
}

/// What the list of the alterations whose flags are set holds.
proof fn lemma_alterations_held(a: bool, b: bool, c: bool, d: bool, e: bool, f: bool)
    ensures
        ({
            let s = alteration_list(a, b, c, d, e, f);
            &&& s.contains(seq!['b', '1', '3']) == a
            &&& s.contains(seq!['#', '1', '1']) == b
            &&& s.contains(seq!['#', '9']) == c
            &&& s.contains(seq!['b', '9']) == d
            &&& s.contains(seq!['#', '5']) == e
            &&& s.contains(seq!['b', '5']) == f
            &&& forall|i: int| 0 <= i < s.len() ==> is_alteration_token(#[trigger] s[i])
        }),
{
    lemma_tag_if_contains();
    lemma_tokens_differ();
    let s = alteration_list(a, b, c, d, e, f);
    assert(tag_if(a, seq!['b', '1', '3']) =~= Seq::<Seq<char>>::empty() + tag_if(
        a,
        seq!['b', '1', '3'],
    ));
    assert forall|i: int| 0 <= i < s.len() implies is_alteration_token(#[trigger] s[i]) by {
        assert(s.contains(s[i]));
    }
}

/// A canonical list of added tones is what byte 0 decodes to.
proof fn lemma_field_0(m: ChordModel)
    requires
        m.root <= 7,
        m.adds == tone_if(m.adds.contains(9), 9) + tone_if(m.adds.contains(6), 6) + tone_if(
            m.adds.contains(4),
            4,
        ),
    ensures
        ({
            let x = byte_0_of(m) as u8;
            &&& x == byte_0_of(m)
            &&& x < 128
            &&& x % 2 == 0
            &&& (x / 16) % 8 == m.root
            &&& m.adds == tone_if(bit(x, 8), 9) + tone_if(bit(x, 4), 6) + tone_if(bit(x, 2), 4)
        }),
{
    lemma_byte_0(m.root, m.adds.contains(9), m.adds.contains(6), m.adds.contains(4));
}

/// Inversion, chord type and applied degree are what byte 1 decodes to.
proof fn lemma_field_1(m: ChordModel)
    requires
        m.inversion <= 3,
        is_chord_type(m.chord_type),
        m.applied <= 7,
    ensures
        ({
            let x = byte_1_of(m) as u8;
            &&& x == byte_1_of(m)
            &&& (x / 8) % 8 <= 4
            &&& type_at(((x / 8) % 8) as int) == Some(m.chord_type)
            &&& x / 64 == m.inversion
            &&& x % 8 == m.applied
        }),
{
    lemma_byte_1(m.inversion, type_index_of(m.chord_type)->0, m.applied);
}

/// A canonical list of alterations is what byte 2 decodes to.
proof fn lemma_field_2(m: ChordModel)
    requires
        m.alterations == alteration_list(
            m.alterations.contains(seq!['b', '1', '3']),
            m.alterations.contains(seq!['#', '1', '1']),
            m.alterations.contains(seq!['#', '9']),
            m.alterations.contains(seq!['b', '9']),
            m.alterations.contains(seq!['#', '5']),
            m.alterations.contains(seq!['b', '5']),
        ),
    ensures
        ({
            let x = byte_2_of(m) as u8;
            &&& x == byte_2_of(m)
            &&& x < 64
            &&& m.alterations == alteration_list(
                bit(x, 32),
                bit(x, 16),
                bit(x, 8),
                bit(x, 4),
                bit(x, 2),
                bit(x, 1),
            )
        }),
{
    lemma_byte_2(
        m.alterations.contains(seq!['b', '1', '3']),
        m.alterations.contains(seq!['#', '1', '1']),
        m.alterations.contains(seq!['#', '9']),
        m.alterations.contains(seq!['b', '9']),
        m.alterations.contains(seq!['#', '5']),
        m.alterations.contains(seq!['b', '5']),
    );
}

/// The borrowed scales that survive a round trip.
pub open spec fn borrowed_round_trips(b: Option<BorrowedModel>) -> bool {
    match b {
        None => true,
        Some(BorrowedModel::Named(name)) => scale_index_of(name) is Some && scale_index_of(
            name,
        )->0 != 0,
        Some(BorrowedModel::ScaleType(_)) => false,
        Some(BorrowedModel::Numeric(offset)) => -8 <= offset <= 23,
    }
}

/// A borrowed scale that survives a round trip is what its code decodes to.
proof fn lemma_borrowed_code(b: Option<BorrowedModel>)
    requires
        borrowed_round_trips(b),
    ensures
        borrowed_code(b) is Some,
        borrowed_code(b)->0 < 64,
        borrowed_code(b)->0 >= 32 || borrowed_code(b)->0 <= 5,
        borrowed_at(borrowed_code(b)->0 as int) == b,
{
    lemma_scale_names();
}

/// The code of a decoded borrowed scale is the code it was decoded from.
proof fn lemma_borrowed_at(code: u8)
    requires
        code < 64,
        code >= 32 || code <= 5,
    ensures
        borrowed_code(borrowed_at(code as int)) == Some(code),
        borrowed_round_trips(borrowed_at(code as int)),
{
    lemma_scale_names();
}

/// A canonical list of suspensions and a borrowed scale that survives a round
/// trip are what byte 3 decodes to.
proof fn lemma_field_3(m: ChordModel)
    requires
        m.suspensions == tone_if(m.suspensions.contains(4), 4) + tone_if(
            m.suspensions.contains(2),
            2,
        ),
        borrowed_round_trips(m.borrowed),
    ensures
        ({
            let x = byte_3_of(m) as u8;
            &&& x == byte_3_of(m)
            &&& (x % 64 >= 32 || x % 64 <= 5)
            &&& m.suspensions == tone_if(bit(x, 128), 4) + tone_if(bit(x, 64), 2)
            &&& borrowed_at((x % 64) as int) == m.borrowed
        }),
{
    lemma_borrowed_code(m.borrowed);
    lemma_byte_3(m.suspensions.contains(4), m.suspensions.contains(2), borrowed_code(m.borrowed)->0);
}

/// A canonical list of omitted tones is what byte 4 decodes to.
proof fn lemma_field_4(m: ChordModel)
    requires
        m.omits == tone_if(m.omits.contains(5), 5) + tone_if(m.omits.contains(3), 3),
    ensures
        ({
            let x = byte_4_of(m) as u8;
            &&& x == byte_4_of(m)
            &&& x < 4
            &&& m.omits == tone_if(bit(x, 2), 5) + tone_if(bit(x, 1), 3)
        }),
{
    lemma_byte_4(m.omits.contains(5), m.omits.contains(3));
}

/// An encodable chord in canonical form is what its binary form decodes to.
proof fn lemma_decoded_of_encoded(m: ChordModel)
    requires
        encodable(m),
        canonical(m),
    ensures
        well_formed(encoded(m)),
        decoded(encoded(m)) == m,
{
    lemma_field_0(m);
    lemma_field_1(m);
    lemma_field_2(m);
    lemma_field_3(m);
    lemma_field_4(m);
    let x = encoded(m);
    let d = decoded(x);
    assert(x[0] == byte_0_of(m) as u8);
    assert(x[1] == byte_1_of(m) as u8);
    assert(x[2] == byte_2_of(m) as u8);
    assert(x[3] == byte_3_of(m) as u8);
    assert(x[4] == byte_4_of(m) as u8);
    assert(d.adds == m.adds);
    assert(d.omits == m.omits);
    assert(d.alterations == m.alterations);
    assert(d.suspensions == m.suspensions);
    assert(d.borrowed == m.borrowed);
    assert(d.chord_type == m.chord_type);
}

/// Whether a borrowed scale has a code that can be read back: every one
/// but a scale type of its own fingerprint.
pub open spec fn code_readable(b: Option<BorrowedModel>) -> bool {
    !(b matches Some(BorrowedModel::ScaleType(ScaleType::Custom(_))))
}

/// The code of a borrowed scale has six bits, and is one that stands for a
/// borrowed scale.
proof fn lemma_code_range(b: Option<BorrowedModel>)
    requires
        borrowed_code(b) is Some,
        code_readable(b),
    ensures
        borrowed_code(b)->0 < 64,
        borrowed_code(b)->0 >= 32 || borrowed_code(b)->0 <= 5,
{
    lemma_scale_names();
}

/// What the binary form of a chord decodes to.
#[verifier::opaque]
pub open spec fn read_back(m: ChordModel) -> ChordModel {
    decoded(encoded(m))
}

/// Byte 0 gives back the root, and the added tones that it knows.
proof fn lemma_root_read(m: ChordModel)
    requires
        m.root <= 7,
    ensures
        encoded(m)[0] < 128,
        encoded(m)[0] % 2 == 0,
        read_back(m).root == m.root,
        forall|w: u8|
            #[trigger] read_back(m).adds.contains(w) == (m.adds.contains(w) && (w == 4 || w == 6
                || w == 9)),
{
    reveal(read_back);
    lemma_byte_0(m.root, m.adds.contains(9), m.adds.contains(6), m.adds.contains(4));
    lemma_tones_held(m.adds.contains(9), 9, m.adds.contains(6), 6, m.adds.contains(4), 4);
}

/// Byte 1 gives back the type, the inversion and the applied degree.
proof fn lemma_type_read(m: ChordModel)
    requires
        m.inversion <= 3,
        is_chord_type(m.chord_type),
        m.applied <= 7,
    ensures
        (encoded(m)[1] / 8) % 8 <= 4,
        read_back(m).chord_type == m.chord_type,
        read_back(m).inversion == m.inversion,
        read_back(m).applied == m.applied,
{
    reveal(read_back);
    lemma_field_1(m);
}

/// The alterations that a byte spells hold a token exactly where its flag
/// is set, and nothing that is no token.
proof fn lemma_alteration_flags(a: bool, b: bool, c: bool, d: bool, e: bool, f: bool, t: Seq<char>)
    ensures
        alteration_list(a, b, c, d, e, f).contains(t) == (if t == seq!['b', '1', '3'] {
            a
        } else if t == seq!['#', '1', '1'] {
            b
        } else if t == seq!['#', '9'] {
            c
        } else if t == seq!['b', '9'] {
            d
        } else if t == seq!['#', '5'] {
            e
        } else if t == seq!['b', '5'] {
            f
        } else {
            false
        }),
{
    let s = alteration_list(a, b, c, d, e, f);
    lemma_alterations_held(a, b, c, d, e, f);
    lemma_tokens_differ();
    if s.contains(t) {
        let i = choose|i: int| 0 <= i < s.len() && s[i] == t;
        assert(is_alteration_token(s[i]));
    }
}

/// Byte 2 gives back the alterations that are alteration tokens.
proof fn lemma_alterations_read(m: ChordModel)
    ensures
        encoded(m)[2] < 64,
        forall|t: Seq<char>|
            #[trigger] read_back(m).alterations.contains(t) == (m.alterations.contains(t)
                && is_alteration_token(t)),
{
    reveal(read_back);
    let a = m.alterations.contains(seq!['b', '1', '3']);
    let b = m.alterations.contains(seq!['#', '1', '1']);
    let c = m.alterations.contains(seq!['#', '9']);
    let d = m.alterations.contains(seq!['b', '9']);
    let e = m.alterations.contains(seq!['#', '5']);
    let f = m.alterations.contains(seq!['b', '5']);
    lemma_byte_2(a, b, c, d, e, f);
    let found = read_back(m).alterations;
    assert(found == alteration_list(a, b, c, d, e, f));
    assert forall|t: Seq<char>|
        #[trigger] found.contains(t) == (m.alterations.contains(t) && is_alteration_token(t)) by {
        lemma_alteration_flags(a, b, c, d, e, f, t);
    }
}

/// Byte 3 gives back the suspensions that it knows, and the code of the
/// borrowed scale.
proof fn lemma_suspensions_read(m: ChordModel)
    requires
        borrowed_code(m.borrowed) is Some,
        code_readable(m.borrowed),
    ensures
        encoded(m)[3] % 64 >= 32 || encoded(m)[3] % 64 <= 5,
        forall|w: u8|
            #[trigger] read_back(m).suspensions.contains(w) == (m.suspensions.contains(w) && (w
                == 2 || w == 4)),
        borrowed_code(read_back(m).borrowed) == borrowed_code(m.borrowed),
        borrowed_round_trips(m.borrowed) ==> read_back(m).borrowed == m.borrowed,
{
    reveal(read_back);
    lemma_code_range(m.borrowed);
    let code = borrowed_code(m.borrowed)->0;
    lemma_byte_3(m.suspensions.contains(4), m.suspensions.contains(2), code);
    lemma_borrowed_at(code);
    if borrowed_round_trips(m.borrowed) {
        lemma_borrowed_code(m.borrowed);
    }
    lemma_tone_pair_held(m.suspensions.contains(4), 4, m.suspensions.contains(2), 2);
}

/// Byte 4 gives back the omitted tones that it knows.
proof fn lemma_omits_read(m: ChordModel)
    ensures
        encoded(m)[4] < 4,
        forall|w: u8|
            #[trigger] read_back(m).omits.contains(w) == (m.omits.contains(w) && (w == 3 || w
                == 5)),
{
    reveal(read_back);
    lemma_byte_4(m.omits.contains(5), m.omits.contains(3));
    lemma_tone_pair_held(m.omits.contains(5), 5, m.omits.contains(3), 3);
}

/// Round trip from any chord whose binary form can be read: what the
/// binary form decodes to has the same root, type, inversion and applied
/// degree; each of its lists holds exactly the items of the chord's list
/// that the binary form knows; its borrowed scale has the code of the
/// chord's, and is the chord's where that survives a round trip.
pub proof fn lemma_round_trip_fields(m: ChordModel)
    requires
        encodable(m),
        code_readable(m.borrowed),
    ensures
        well_formed(encoded(m)),
        read_back(m) == decoded(encoded(m)),
        read_back(m).root == m.root,
        read_back(m).chord_type == m.chord_type,
        read_back(m).inversion == m.inversion,
        read_back(m).applied == m.applied,
        forall|w: u8|
            #[trigger] read_back(m).adds.contains(w) == (m.adds.contains(w) && (w == 4 || w == 6
                || w == 9)),
        forall|w: u8|
            #[trigger] read_back(m).omits.contains(w) == (m.omits.contains(w) && (w == 3 || w
                == 5)),
        forall|w: u8|
            #[trigger] read_back(m).suspensions.contains(w) == (m.suspensions.contains(w) && (w
                == 2 || w == 4)),
        forall|t: Seq<char>|
            #[trigger] read_back(m).alterations.contains(t) == (m.alterations.contains(t)
                && is_alteration_token(t)),
        borrowed_code(read_back(m).borrowed) == borrowed_code(m.borrowed),
        borrowed_round_trips(m.borrowed) ==> read_back(m).borrowed == m.borrowed,
{
    lemma_root_read(m);
    lemma_type_read(m);
    lemma_alterations_read(m);
    lemma_suspensions_read(m);
    lemma_omits_read(m);
    assert(read_back(m) == decoded(encoded(m))) by {
        reveal(read_back);
    }
}

/// Round trip from a chord: a valid, encodable chord in canonical form is
/// what its binary form decodes to, field by field.
pub proof fn lemma_decode_encode(m: ChordModel)
    requires
        m.valid(),
        encodable(m),
        canonical(m),
    ensures
        decodable(encoded(m)),
        decoded(encoded(m)) == m,
{
    lemma_decoded_of_encoded(m);
}

/// The lists of a decoded chord hold what the bits say, and nothing else.
proof fn lemma_decoded_lists(x: Seq<u8>)
    requires
        x.len() == 5,
    ensures
        ({
            let d = decoded(x);
            &&& d.adds.contains(9) == bit(x[0], 8)
            &&& d.adds.contains(6) == bit(x[0], 4)
            &&& d.adds.contains(4) == bit(x[0], 2)
            &&& d.omits.contains(5) == bit(x[4], 2)
            &&& d.omits.contains(3) == bit(x[4], 1)
            &&& d.suspensions.contains(4) == bit(x[3], 128)
            &&& d.suspensions.contains(2) == bit(x[3], 64)
            &&& d.alterations.contains(seq!['b', '1', '3']) == bit(x[2], 32)
            &&& d.alterations.contains(seq!['#', '1', '1']) == bit(x[2], 16)
            &&& d.alterations.contains(seq!['#', '9']) == bit(x[2], 8)
            &&& d.alterations.contains(seq!['b', '9']) == bit(x[2], 4)
            &&& d.alterations.contains(seq!['#', '5']) == bit(x[2], 2)
            &&& d.alterations.contains(seq!['b', '5']) == bit(x[2], 1)
            &&& first_bad_tag(d.alterations, 0) == d.alterations.len()
        }),
{
    let d = decoded(x);
    lemma_tones_held(bit(x[0], 8), 9, bit(x[0], 4), 6, bit(x[0], 2), 4);
    lemma_tone_pair_held(bit(x[4], 2), 5, bit(x[4], 1), 3);
    lemma_tone_pair_held(bit(x[3], 128), 4, bit(x[3], 64), 2);
    lemma_alterations_held(
        bit(x[2], 32),
        bit(x[2], 16),
        bit(x[2], 8),
        bit(x[2], 4),
        bit(x[2], 2),
        bit(x[2], 1),
    );
    assert(d.alterations == alteration_list(
        bit(x[2], 32),
        bit(x[2], 16),
        bit(x[2], 8),
        bit(x[2], 4),
        bit(x[2], 2),
        bit(x[2], 1),
    ));
    lemma_no_bad_tag(d.alterations, 0);
}

/// Well-formed bytes are the binary form of the chord they decode to.
proof fn lemma_encoded_of_decoded(x: Seq<u8>)
    requires
        well_formed(x),
    ensures
        encodable(decoded(x)),
        encoded(decoded(x)) == x,
        canonical(decoded(x)),
{
    let d = decoded(x);
    lemma_decoded_lists(x);
    lemma_borrowed_at(x[3] % 64);
    lemma_byte_0_sum(x[0]);
    lemma_byte_2_sum(x[2]);
    lemma_byte_3_sum(x[3]);
    lemma_byte_4_sum(x[4]);
    assert(is_chord_type(d.chord_type) && type_index_of(d.chord_type) == Some((x[1] / 8) % 8));
    assert(byte_0_of(d) == x[0]);
    assert(byte_1_of(d) == x[1]);
    assert(byte_2_of(d) == x[2]);
    assert(byte_3_of(d) == x[3]);
    assert(byte_4_of(d) == x[4]);
    assert(encoded(d) =~= x);
    assert(d.alterations == alteration_list(
        bit(x[2], 32),
        bit(x[2], 16),
        bit(x[2], 8),
        bit(x[2], 4),
        bit(x[2], 2),
        bit(x[2], 1),
    ));
}

/// Round trip from bytes: decodable bytes are the binary form of the chord
/// they decode to, and that chord is in canonical form.
pub proof fn lemma_encode_decode(x: Seq<u8>)
    requires
        decodable(x),
    ensures
        encodable(decoded(x)),
        encoded(decoded(x)) == x,
        canonical(decoded(x)),
{
    lemma_encoded_of_decoded(x);
}

/// The sixteen hexadecimal digits, in lower case.
pub const HEX_DIGITS: [char; 16] = [
    '0',
    '1',
    '2',
    '3',
    '4',
    '5',
    '6',
    '7',
    '8',
    '9',
    'a',
    'b',
    'c',
    'd',
    'e',
    'f',
];

/// Two lowercase hexadecimal digits for each byte, in byte order.
pub open spec fn hex_text(bytes: Seq<u8>) -> Seq<char> {
    Seq::new(
        2 * bytes.len(),
        |i: int|
            if i % 2 == 0 {
                HEX_DIGITS@[bytes[i / 2] as int / 16]
            } else {
                HEX_DIGITS@[bytes[i / 2] as int % 16]
            },
    )
}

/// The value of a hexadecimal digit of either case; `None` for any other character.
pub open spec fn hex_value(c: char) -> Option<u8> {
    if '0' <= c <= '9' {
        Some((c as u32 - '0' as u32) as u8)
    } else if 'a' <= c <= 'f' {
        Some((c as u32 - 'a' as u32 + 10) as u8)
    } else if 'A' <= c <= 'F' {
        Some((c as u32 - 'A' as u32 + 10) as u8)
    } else {
        None
    }
}

/// A text is the hexadecimal form of five bytes when it has ten characters
/// and each is a hexadecimal digit.
pub open spec fn is_hex_key(text: Seq<char>) -> bool {
    text.len() == 10 && forall|i: int| 0 <= i < 10 ==> hex_value(#[trigger] text[i]) is Some
}

/// The bytes that ten hexadecimal digits spell.
pub open spec fn hex_bytes(text: Seq<char>) -> Seq<u8> {
    Seq::new(5, |k: int| (16 * hex_value(text[2 * k])->0 + hex_value(text[2 * k + 1])->0) as u8)
}

/// The value of a hexadecimal digit.
pub(crate) fn hex_digit_value(c: char) -> (r: Option<u8>)
    ensures
        r == hex_value(c),
        r matches Some(v) ==> v < 16,
{
    let n: u32 = c as u32;
    if n >= 48 && n <= 57 {
        Some((n - 48) as u8)
    } else if n >= 97 && n <= 102 {
        Some((n - 97 + 10) as u8)
    } else if n >= 65 && n <= 70 {
        Some((n - 65 + 10) as u8)
    } else {
        None
    }
}

/// The binary form written as ten lowercase hexadecimal digits.
pub fn chord_binary_to_hex(binary: &ChordBinary) -> (s: String)
    ensures
        s@ == hex_text(binary@),
{
    let mut s = String::new();
    let mut i: usize = 0;
    while i < 5
        invariant
            i <= 5,
            s@ == hex_text(binary@.subrange(0, i as int)),
        decreases 5 - i,
    {
        let b = binary[i];
        push_char(&mut s, HEX_DIGITS[(b / 16) as usize]);
        push_char(&mut s, HEX_DIGITS[(b % 16) as usize]);
        i = i + 1;
        assert(s@ =~= hex_text(binary@.subrange(0, i as int)));
    }
    assert(binary@.subrange(0, 5) =~= binary@);
    s
}

/// The five bytes that a hexadecimal text spells. It is refused unless the
/// text has exactly ten characters, each a hexadecimal digit.
pub fn hex_to_chord_binary(hex: &str) -> (r: SerializationResult<ChordBinary>)
    ensures
        r is Ok <==> is_hex_key(hex@),
        r matches Ok(binary) ==> binary@ == hex_bytes(hex@),
        r matches Err(e) ==> e is InvalidBinaryFormat,
{
    if hex.unicode_len() != 10 {
        return Err(
            SerializationError::InvalidBinaryFormat {
                reason: String::from_str("hex string must be exactly 10 characters"),
            },
        );
    }
    let mut binary: ChordBinary = [0, 0, 0, 0, 0];
    let mut k: usize = 0;
    while k < 5
        invariant
            k <= 5,
            hex@.len() == 10,
            forall|i: int| 0 <= i < 2 * k ==> hex_value(#[trigger] hex@[i]) is Some,
            forall|j: int| 0 <= j < k ==> binary@[j] == hex_bytes(hex@)[j],
        decreases 5 - k,
    {
        let high = match hex_digit_value(hex.get_char(2 * k)) {
            Some(v) => v,
            None => {
                return Err(
                    SerializationError::InvalidBinaryFormat {
                        reason: String::from_str("invalid hex digit"),
                    },
                );
            },
        };
        let low = match hex_digit_value(hex.get_char(2 * k + 1)) {
            Some(v) => v,
            None => {
                return Err(
                    SerializationError::InvalidBinaryFormat {
                        reason: String::from_str("invalid hex digit"),
                    },
                );
            },
        };
        binary[k] = 16 * high + low;
        k = k + 1;
    }
    assert(binary@ =~= hex_bytes(hex@));
    Ok(binary)
}

/// The hexadecimal form can be read back: it is a hexadecimal key, and it
/// spells the bytes it was written from.
pub proof fn lemma_hex_round_trip(bytes: Seq<u8>)
    requires
        bytes.len() == 5,
    ensures
        is_hex_key(hex_text(bytes)),
        hex_bytes(hex_text(bytes)) == bytes,
{
    let t = hex_text(bytes);
    assert forall|v: int| 0 <= v < 16 implies hex_value(#[trigger] HEX_DIGITS@[v]) == Some(
        v as u8,
    ) by {
        assert(HEX_DIGITS@[0] == '0' && HEX_DIGITS@[1] == '1' && HEX_DIGITS@[2] == '2'
            && HEX_DIGITS@[3] == '3' && HEX_DIGITS@[4] == '4' && HEX_DIGITS@[5] == '5'
            && HEX_DIGITS@[6] == '6' && HEX_DIGITS@[7] == '7' && HEX_DIGITS@[8] == '8'
            && HEX_DIGITS@[9] == '9' && HEX_DIGITS@[10] == 'a' && HEX_DIGITS@[11] == 'b'
            && HEX_DIGITS@[12] == 'c' && HEX_DIGITS@[13] == 'd' && HEX_DIGITS@[14] == 'e'
            && HEX_DIGITS@[15] == 'f');
    }
    assert forall|i: int| 0 <= i < 10 implies hex_value(#[trigger] t[i]) is Some by {
        let b = bytes[i / 2] as int;
        if i % 2 == 0 {
            assert(t[i] == HEX_DIGITS@[b / 16]);
        } else {
            assert(t[i] == HEX_DIGITS@[b % 16]);
        }
    }
    assert forall|k: int| 0 <= k < 5 implies hex_bytes(t)[k] == bytes[k] by {
        let b = bytes[k] as int;
        assert(t[2 * k] == HEX_DIGITS@[b / 16]);
        assert(t[2 * k + 1] == HEX_DIGITS@[b % 16]);
    }
    assert(hex_bytes(t) =~= bytes);
}

/// Whether a character may stand in a Roman numeral: a letter, or one of
/// the signs for diminished, sharp and flat.
pub open spec fn is_numeral_char(c: char) -> bool {
    char_is_alphabetic(c) || c == '°' || c == '#' || c == '♭'
}

/// A text without the characters `c` that it ends with.
pub open spec fn without_trailing(text: Seq<char>, c: char) -> Seq<char>
    decreases text.len(),
{
    if text.len() > 0 && text.last() == c {
        without_trailing(text.drop_last(), c)
    } else {
        text
    }
}

/// The degree of a Roman numeral in small letters.
pub open spec fn numeral_degree(numeral: Seq<char>) -> Option<u8> {
    if numeral == "i"@ {
        Some(1)
    } else if numeral == "ii"@ {
        Some(2)
    } else if numeral == "iii"@ {
        Some(3)
    } else if numeral == "iv"@ {
        Some(4)
    } else if numeral == "v"@ {
        Some(5)
    } else if numeral == "vi"@ {
        Some(6)
    } else if numeral == "vii"@ {
        Some(7)
    } else {
        None
    }
}

/// The chords that a Roman numeral in small letters may stand for, each as
/// the hexadecimal form of its key: the plain chord on the degree of the
/// numeral, a seventh chord where `seventh` holds. Sevens and signs for
/// diminished at the end are not part of the numeral. `None` for a text
/// that is no numeral.
pub open spec fn numeral_chords(lowered: Seq<char>, seventh: bool) -> Option<Seq<Seq<char>>> {
    match numeral_degree(without_trailing(without_trailing(lowered, '7'), '°')) {
        Some(root) => Some(
            seq![
                hex_text(
                    encoded(
                        ChordModel::plain(
                            root,
                            if seventh {
                                7
                            } else {
                                5
                            },
                        ),
                    ),
                ),
            ],
        ),
        None => None,
    }
}

/// The chords that a symbol may stand for: those of its numeral where it
/// is made of letters and signs only, else none. `None` where it is made of
/// letters and signs and is no numeral.
pub open spec fn symbol_chords(symbol: Seq<char>) -> Option<Seq<Seq<char>>> {
    if forall|i: int| 0 <= i < symbol.len() ==> is_numeral_char(#[trigger] symbol[i]) {
        numeral_chords(lowercase_of(symbol), symbol.contains('7'))
    } else {
        Some(Seq::empty())
    }
}

/// The chords that a Roman numeral in small letters may stand for.
pub fn numeral_candidates(lowered: &str, seventh: bool) -> (r: SerializationResult<Vec<String>>)
    ensures
        r is Ok <==> numeral_chords(lowered@, seventh) is Some,
        r matches Ok(v) ==> Some(texts(v@)) == numeral_chords(lowered@, seventh),
        r matches Err(e) ==> e is InvalidFormat,
{
    let chars = chars_of(lowered);
    let mut end: usize = chars.len();
    assert(chars@.subrange(0, end as int) =~= chars@);
    while end > 0 && chars[end - 1] == '7'
        invariant
            end <= chars@.len(),
            without_trailing(chars@, '7') == without_trailing(chars@.subrange(0, end as int), '7'),
        decreases end,
    {
        assert(chars@.subrange(0, end as int).drop_last() =~= chars@.subrange(0, end - 1));
        end = end - 1;
    }
    let ghost trimmed = chars@.subrange(0, end as int);
    assert(without_trailing(chars@, '7') == trimmed);
    while end > 0 && chars[end - 1] == '°'
        invariant
            end <= chars@.len(),
            without_trailing(trimmed, '°') == without_trailing(
                chars@.subrange(0, end as int),
                '°',
            ),
        decreases end,
    {
        assert(chars@.subrange(0, end as int).drop_last() =~= chars@.subrange(0, end - 1));
        end = end - 1;
    }
    let ghost numeral = chars@.subrange(0, end as int);
    assert(without_trailing(trimmed, '°') == numeral);
    proof {
        reveal_strlit("i");
        reveal_strlit("ii");
        reveal_strlit("iii");
        reveal_strlit("iv");
        reveal_strlit("v");
        reveal_strlit("vi");
        reveal_strlit("vii");
        assert("i"@ =~= seq!['i']);
        assert("ii"@ =~= seq!['i', 'i']);
        assert("iii"@ =~= seq!['i', 'i', 'i']);
        assert("iv"@ =~= seq!['i', 'v']);
        assert("v"@ =~= seq!['v']);
        assert("vi"@ =~= seq!['v', 'i']);
        assert("vii"@ =~= seq!['v', 'i', 'i']);
    }
    let root: u8 = if end == 1 && chars[0] == 'i' {
        assert(numeral =~= seq!['i']);
        1
    } else if end == 2 && chars[0] == 'i' && chars[1] == 'i' {
        assert(numeral =~= seq!['i', 'i']);
        2
    } else if end == 3 && chars[0] == 'i' && chars[1] == 'i' && chars[2] == 'i' {
        assert(numeral =~= seq!['i', 'i', 'i']);
        3
    } else if end == 2 && chars[0] == 'i' && chars[1] == 'v' {
        assert(numeral =~= seq!['i', 'v']);
        4
    } else if end == 1 && chars[0] == 'v' {
        assert(numeral =~= seq!['v']);
        5
    } else if end == 2 && chars[0] == 'v' && chars[1] == 'i' {
        assert(numeral =~= seq!['v', 'i']);
        6
    } else if end == 3 && chars[0] == 'v' && chars[1] == 'i' && chars[2] == 'i' {
        assert(numeral =~= seq!['v', 'i', 'i']);
        7
    } else {
        assert(numeral_degree(numeral) is None) by {
            if numeral.len() >= 1 {
                assert(numeral[0] == chars@[0]);
            }
            if numeral.len() >= 2 {
                assert(numeral[1] == chars@[1]);
            }
            if numeral.len() >= 3 {
                assert(numeral[2] == chars@[2]);
            }
        }
        return Err(
            SerializationError::InvalidFormat {
                message: String::from_str("Unrecognized Roman numeral"),
            },
        );
    };
    let mut chord = Chord::default();
    chord.root = root;
    chord.chord_type = if seventh {
        7
    } else {
        5
    };
    let binary = match serialize_chord(&chord) {
        Ok(binary) => binary,
        Err(e) => {
            return Err(e);
        },
    };
    let mut found: Vec<String> = Vec::new();
    found.push(chord_binary_to_hex(&binary));
    assert(texts(found@) =~= seq![hex_text(encoded(chord@))]);
    Ok(found)
}

/// The chords that a symbol may stand for, each as the hexadecimal form of
/// its key. The scale has no part in it.
pub fn parse_chord_symbol(symbol: &str, _scale_name: &str) -> (r: SerializationResult<Vec<String>>)
    ensures
        r is Ok <==> symbol_chords(symbol@) is Some,
        r matches Ok(v) ==> Some(texts(v@)) == symbol_chords(symbol@),
        r matches Err(e) ==> e is InvalidFormat,
{
    let chars = chars_of(symbol);
    let mut seventh = false;
    let mut i: usize = 0;
    while i < chars.len()
        invariant
            i <= chars@.len(),
            chars@ == symbol@,
            forall|k: int| 0 <= k < i ==> is_numeral_char(#[trigger] chars@[k]),
            seventh == chars@.subrange(0, i as int).contains('7'),
        decreases chars@.len() - i,
    {
        let c = chars[i];
        if !(is_alphabetic(c) || c == '°' || c == '#' || c == '♭') {
            let found: Vec<String> = Vec::new();
            assert(texts(found@) =~= Seq::empty());
            return Ok(found);
        }
        let ghost before = chars@.subrange(0, i as int);
        assert(chars@.subrange(0, i + 1) =~= before.push(c));
        if c == '7' {
            seventh = true;
            assert(before.push(c)[i as int] == '7');
        } else {
            assert(before.push(c).contains('7') == before.contains('7')) by {
                if before.push(c).contains('7') {
                    let k = choose|k: int| 0 <= k < before.push(c).len() && before.push(c)[k] == '7';
                    assert(before[k] == '7');
                }
                if before.contains('7') {
                    let k = choose|k: int| 0 <= k < before.len() && before[k] == '7';
                    assert(before.push(c)[k] == '7');
                }
            }
        }
        i = i + 1;
    }
    assert(chars@.subrange(0, chars@.len() as int) =~= chars@);
    let lowered = to_lowercase(symbol);
    numeral_candidates(lowered.as_str(), seventh)
}

} // verus!
