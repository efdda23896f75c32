//! Tables of music theory: numerals, figured bass, quality symbols, semitone
//! offsets of alterations and harmonic functions.

use vstd::prelude::*;
use crate::fixed::Fixed;
use crate::text::text_eq;

verus! {

/// Roman numerals of the seven degrees, in upper case.
pub const UPPER_CASE_NUMERALS: [&'static str; 7] = ["I", "II", "III", "IV", "V", "VI", "VII"];

/// Roman numerals of the seven degrees, in lower case.
pub const LOWER_CASE_NUMERALS: [&'static str; 7] = ["i", "ii", "iii", "iv", "v", "vi", "vii"];

/// The alteration tokens.
pub const VALID_ALTERATIONS: [&'static str; 6] = ["b5", "#5", "b9", "#9", "#11", "b13"];

/// The intervals that can be suspended.
pub const VALID_SUSPENSIONS: [u8; 2] = [2, 4];

/// The intervals that can be added.
pub const VALID_ADD_TONES: [u8; 3] = [4, 6, 9];

/// The tones that can be omitted.
pub const VALID_OMIT_TONES: [u8; 2] = [3, 5];

/// The figures of a chord type, inversion by inversion.
pub open spec fn figures_of(chord_type: u8) -> Option<Seq<Seq<char>>> {
    if chord_type == 5 {
        Some(seq![""@, "6"@, "64"@])
    } else if chord_type == 7 {
        Some(seq!["7"@, "65"@, "43"@, "42"@])
    } else if chord_type == 9 {
        Some(seq!["9"@])
    } else if chord_type == 11 {
        Some(seq!["11"@])
    } else if chord_type == 13 {
        Some(seq!["13"@])
    } else {
        None
    }
}

/// The characters of each text of a sequence.
pub open spec fn str_views(v: Seq<&'static str>) -> Seq<Seq<char>> {
    Seq::new(v.len(), |i: int| v[i]@)
}

/// The figured bass of a chord type, inversion by inversion.
pub fn figured_bass(chord_type: u8) -> (r: Option<Vec<&'static str>>)
    ensures
        r is Some <==> figures_of(chord_type) is Some,
        r matches Some(v) ==> str_views(v@) == figures_of(chord_type)->0,
{
    let mut v: Vec<&'static str> = Vec::new();
    if chord_type == 5 {
        v.push("");
        v.push("6");
        v.push("64");
    } else if chord_type == 7 {
        v.push("7");
        v.push("65");
        v.push("43");
        v.push("42");
    } else if chord_type == 9 {
        v.push("9");
    } else if chord_type == 11 {
        v.push("11");
    } else if chord_type == 13 {
        v.push("13");
    } else {
        return None;
    }
    assert(str_views(v@) =~= figures_of(chord_type)->0);
    Some(v)
}

/// The symbol of a triad quality.
pub open spec fn triad_symbol_of(quality: Seq<char>) -> Option<Seq<char>> {
    if quality == "minor_flat5"@ {
        Some("°"@)
    } else if quality == "minor"@ {
        Some("m"@)
    } else if quality == "major"@ {
        Some(""@)
    } else if quality == "augmented"@ {
        Some("+"@)
    } else {
        None
    }
}

/// The symbol of a triad quality.
pub fn quality_symbol_triad(quality: &str) -> (r: Option<&'static str>)
    ensures
        r is Some <==> triad_symbol_of(quality@) is Some,
        r matches Some(s) ==> Some(s@) == triad_symbol_of(quality@),
{
    if text_eq(quality, "minor_flat5") {
        Some("°")
    } else if text_eq(quality, "minor") {
        Some("m")
    } else if text_eq(quality, "major") {
        Some("")
    } else if text_eq(quality, "augmented") {
        Some("+")
    } else {
        None
    }
}

/// The symbol of a seventh-chord quality.
pub open spec fn seventh_symbol_of(quality: Seq<char>) -> Option<Seq<char>> {
    if quality == "diminished7"@ {
        Some("°7"@)
    } else if quality == "half_diminished7"@ {
        Some("ø7"@)
    } else if quality == "minor7"@ {
        Some("m7"@)
    } else if quality == "dominant7"@ {
        Some("7"@)
    } else if quality == "major7"@ {
        Some("maj7"@)
    } else if quality == "augmented7"@ {
        Some("+7"@)
    } else {
        None
    }
}

/// The symbol of a seventh-chord quality.
pub fn quality_symbol_seventh(quality: &str) -> (r: Option<&'static str>)
    ensures
        r is Some <==> seventh_symbol_of(quality@) is Some,
        r matches Some(s) ==> Some(s@) == seventh_symbol_of(quality@),
{
    if text_eq(quality, "diminished7") {
        Some("°7")
    } else if text_eq(quality, "half_diminished7") {
        Some("ø7")
    } else if text_eq(quality, "minor7") {
        Some("m7")
    } else if text_eq(quality, "dominant7") {
        Some("7")
    } else if text_eq(quality, "major7") {
        Some("maj7")
    } else if text_eq(quality, "augmented7") {
        Some("+7")
    } else {
        None
    }
}

/// The semitone offset that an alteration stands for.
pub open spec fn offset_of(alteration: Seq<char>) -> Option<i8> {
    if alteration == "#5"@ {
        Some(1i8)
    } else if alteration == "b5"@ {
        Some(-1i8)
    } else if alteration == "#9"@ {
        Some(3i8)
    } else if alteration == "b9"@ {
        Some(-3i8)
    } else if alteration == "#11"@ {
        Some(4i8)
    } else if alteration == "b11"@ {
        Some(-4i8)
    } else if alteration == "#13"@ {
        Some(5i8)
    } else if alteration == "b13"@ {
        Some(-5i8)
    } else {
        None
    }
}

/// The semitone offset that an alteration stands for.
pub fn alteration_offset(alteration: &str) -> (r: Option<i8>)
    ensures
        r == offset_of(alteration@),
{
    if text_eq(alteration, "#5") {
        Some(1)
    } else if text_eq(alteration, "b5") {
        Some(-1)
    } else if text_eq(alteration, "#9") {
        Some(3)
    } else if text_eq(alteration, "b9") {
        Some(-3)
    } else if text_eq(alteration, "#11") {
        Some(4)
    } else if text_eq(alteration, "b11") {
        Some(-4)
    } else if text_eq(alteration, "#13") {
        Some(5)
    } else if text_eq(alteration, "b13") {
        Some(-5)
    } else {
        None
    }
}

/// The penalty of a voice-leading fault.
pub open spec fn penalty_of(fault: Seq<char>) -> Option<int> {
    if fault == "parallel_fifths"@ {
        Some(10_000_000int)
    } else if fault == "parallel_octaves"@ {
        Some(8_000_000int)
    } else if fault == "large_leaps"@ {
        Some(2_000_000int)
    } else if fault == "voice_crossing"@ {
        Some(3_000_000int)
    } else if fault == "doubled_leading_tone"@ {
        Some(5_000_000int)
    } else {
        None
    }
}

/// The penalty of a voice-leading fault.
pub fn voice_leading_penalty(fault: &str) -> (r: Option<Fixed>)
    ensures
        r is Some <==> penalty_of(fault@) is Some,
        r matches Some(p) ==> Some(p.value()) == penalty_of(fault@),
{
    if text_eq(fault, "parallel_fifths") {
        Some(Fixed { micros: 10_000_000 })
    } else if text_eq(fault, "parallel_octaves") {
        Some(Fixed { micros: 8_000_000 })
    } else if text_eq(fault, "large_leaps") {
        Some(Fixed { micros: 2_000_000 })
    } else if text_eq(fault, "voice_crossing") {
        Some(Fixed { micros: 3_000_000 })
    } else if text_eq(fault, "doubled_leading_tone") {
        Some(Fixed { micros: 5_000_000 })
    } else {
        None
    }
}

/// The degrees that have a harmonic function.
pub open spec fn function_degrees_of(function: Seq<char>) -> Option<Seq<u8>> {
    if function == "tonic"@ {
        Some(seq![1u8, 6u8, 3u8])
    } else if function == "predominant"@ {
        Some(seq![4u8, 2u8])
    } else if function == "dominant"@ {
        Some(seq![5u8, 7u8])
    } else {
        None
    }
}

/// The degrees that have a harmonic function.
pub fn harmonic_function_degrees(function: &str) -> (r: Option<Vec<u8>>)
    ensures
        r is Some <==> function_degrees_of(function@) is Some,
        r matches Some(v) ==> Some(v@) == function_degrees_of(function@),
{
    let mut v: Vec<u8> = Vec::new();
    if text_eq(function, "tonic") {
        v.push(1);
        v.push(6);
        v.push(3);
    } else if text_eq(function, "predominant") {
        v.push(4);
        v.push(2);
    } else if text_eq(function, "dominant") {
        v.push(5);
        v.push(7);
    } else {
        return None;
    }
    assert(v@ =~= function_degrees_of(function@)->0);
    Some(v)
}

/// The name of the function of a scale degree.
pub open spec fn degree_function_of(degree: u8) -> Option<Seq<char>> {
    if degree == 1 {
        Some("tonic"@)
    } else if degree == 2 {
        Some("supertonic"@)
    } else if degree == 3 {
        Some("mediant"@)
    } else if degree == 4 {
        Some("subdominant"@)
    } else if degree == 5 {
        Some("dominant"@)
    } else if degree == 6 {
        Some("submediant"@)
    } else if degree == 7 {
        Some("leading_tone"@)
    } else {
        None
    }
}

/// The name of the function of a scale degree.
pub fn scale_degree_function(degree: u8) -> (r: Option<&'static str>)
    ensures
        r is Some <==> 1 <= degree <= 7,
        r matches Some(s) ==> Some(s@) == degree_function_of(degree),
{
    match degree {
        1 => Some("tonic"),
        2 => Some("supertonic"),
        3 => Some("mediant"),
        4 => Some("subdominant"),
        5 => Some("dominant"),
        6 => Some("submediant"),
        7 => Some("leading_tone"),
        _ => None,
    }
}

} // verus!
