//! Tokens for notes, chords and durations, and the library of chord tokens.
//!
//! A duration is written as a count of ticks in hexadecimal, a note as its
//! chromatic step and octave. The forms of valid tokens are regular
//! expressions, matched by the `regex` crate.

use vstd::prelude::*;
use regex::Regex;
use crate::chord::{Chord, ChordModel};
use crate::chord_binary::{HEX_DIGITS, hex_value, hex_digit_value};
use crate::error::{SerializationError, SerializationResult};
use crate::fixed::{Fixed, clamp, clamp_to};
use crate::lists::texts;
use crate::ranking::{Scored, insertion_point, sorted_desc};
use crate::scale::ScaleFingerprint;
use crate::text::{chars_of, push_char, text_eq};

verus! {

/// Ticks in a beat.
pub const TICKS_PER_BEAT: u32 = 24;

/// The factor from beats to ticks.
pub const BEAT_TO_TICK_MULTIPLIER: u32 = 24;

/// The highest beat whose ticks fit in 16 bits.
pub const MAX_BEAT_VALUE: u32 = 2730;

/// The lowest octave of a note token.
pub const OCTAVE_RANGE_MIN: u8 = 2;

/// The highest octave of a note token.
pub const OCTAVE_RANGE_MAX: u8 = 7;

/// Semitones in an octave.
pub const CHROMATIC_RANGE: u8 = 12;

/// What a duration token begins with.
pub const DURATION_TOKEN_PREFIX: &'static str = "D_";

/// What a note token begins with.
pub const RAW_NOTE_TOKEN_PREFIX: &'static str = "R_";

/// What an octave token begins with.
pub const OCTAVE_TOKEN_PREFIX: &'static str = "O_";

/// The token of a rest among notes.
pub const REST_NOTE_TOKEN: &'static str = "NOTE-REST";

/// The token of a rest among chords.
pub const REST_CHORD_TOKEN: &'static str = "CHORD-REST";

/// The form of a duration token.
pub const DURATION_PATTERN: &'static str = "^D_[0-9a-f]+$";

/// The form of a note token.
pub const RAW_NOTE_PATTERN: &'static str = "^R_[0-9a-b]$";

/// The form of an octave token.
pub const OCTAVE_PATTERN: &'static str = "^O_[2-7]$";

/// The form of a chord cluster token.
pub const CHORD_CLUSTER_PATTERN: &'static str = "^(R_[0-9a-b]-?)+$";

/// A note: a scale degree in an octave, or a rest.
#[derive(Debug, Clone, Copy, PartialEq, Eq)]
pub struct Note {
    pub scale_degree: u8,
    pub octave: u8,
    pub is_rest: bool,
}

/// A token of the library with the chord that it stands for.
#[derive(Debug)]
pub struct TokenEntry {
    pub token: String,
    pub binary: Vec<u8>,
}

/// The chords that tokens stand for.
#[derive(Debug)]
pub struct TokenLibrary {
    /// The entries, in the order in which their tokens first came.
    pub chord_tokens: Vec<TokenEntry>,
    /// The number of entries.
    pub library_size: usize,
}

/// The first index from `from` on of an entry with the token; the length
/// where there is none.
pub open spec fn entry_index(entries: Seq<TokenEntry>, token: Seq<char>, from: int) -> int
    decreases entries.len() - from,
{
    if from < 0 || from >= entries.len() {
        entries.len() as int
    } else if entries[from].token@ == token {
        from
    } else {
        entry_index(entries, token, from + 1)
    }
}

impl View for TokenLibrary {
    type V = Map<Seq<char>, Seq<u8>>;

    /// Each token with the chord of the first entry that has it.
    open spec fn view(&self) -> Map<Seq<char>, Seq<u8>> {
        Map::new(
            |t: Seq<char>| entry_index(self.chord_tokens@, t, 0) < self.chord_tokens@.len(),
            |t: Seq<char>| self.chord_tokens@[entry_index(self.chord_tokens@, t, 0)].binary@,
        )
    }
}

/// The index is in range, the entry there has the token, and none before it has.
proof fn lemma_entry_index(entries: Seq<TokenEntry>, token: Seq<char>, from: int)
    requires
        0 <= from <= entries.len(),
    ensures
        from <= entry_index(entries, token, from) <= entries.len(),
        entry_index(entries, token, from) < entries.len() ==> entries[entry_index(
            entries,
            token,
            from,
        )].token@ == token,
        forall|j: int|
            from <= j < entry_index(entries, token, from) ==> (#[trigger] entries[j]).token@
                != token,
    decreases entries.len() - from,
{
    if from < entries.len() && entries[from].token@ != token {
        lemma_entry_index(entries, token, from + 1);
    }
}

/// Two lists with the same tokens find every token at the same place.
proof fn lemma_same_tokens(a: Seq<TokenEntry>, b: Seq<TokenEntry>, token: Seq<char>, from: int)
    requires
        0 <= from <= a.len(),
        a.len() == b.len(),
        forall|j: int| 0 <= j < a.len() ==> (#[trigger] a[j]).token@ == b[j].token@,
    ensures
        entry_index(a, token, from) == entry_index(b, token, from),
    decreases a.len() - from,
{
    if from < a.len() && a[from].token@ != token {
        lemma_same_tokens(a, b, token, from + 1);
    }
}

/// Behind one more entry a token is found where it was, or in the new entry.
proof fn lemma_pushed(a: Seq<TokenEntry>, e: TokenEntry, token: Seq<char>, from: int)
    requires
        0 <= from <= a.len(),
    ensures
        entry_index(a.push(e), token, from) == (if entry_index(a, token, from) < a.len() {
            entry_index(a, token, from)
        } else if e.token@ == token {
            a.len() as int
        } else {
            a.len() as int + 1
        }),
    decreases a.len() - from,
{
    let b = a.push(e);
    if from < a.len() {
        assert(b[from] == a[from]);
        if a[from].token@ != token {
            lemma_pushed(a, e, token, from + 1);
        }
    } else {
        assert(b[from] == e);
        if e.token@ != token {
            assert(entry_index(b, token, from + 1) == b.len());
        }
    }
}

/// The index of the entry with the token; the length where there is none.
fn find_entry(entries: &Vec<TokenEntry>, token: &str) -> (i: usize)
    ensures
        i == entry_index(entries@, token@, 0),
        i <= entries@.len(),
{
    let mut i: usize = 0;
    while i < entries.len()
        invariant
            i <= entries@.len(),
            entry_index(entries@, token@, 0) == entry_index(entries@, token@, i as int),
        decreases entries@.len() - i,
    {
        if text_eq(entries[i].token.as_str(), token) {
            return i;
        }
        i = i + 1;
    }
    i
}

/// A copy of a list of bytes.
fn copy_bytes(v: &Vec<u8>) -> (r: Vec<u8>)
    ensures
        r@ == v@,
{
    let mut r: Vec<u8> = Vec::new();
    let mut i: usize = 0;
    while i < v.len()
        invariant
            i <= v@.len(),
            r@ == v@.subrange(0, i as int),
        decreases v@.len() - i,
    {
        r.push(v[i]);
        i = i + 1;
        assert(r@ =~= v@.subrange(0, i as int));
    }
    assert(v@.subrange(0, v@.len() as int) =~= v@);
    r
}

/// The chords of a list of chords in bytes.
pub open spec fn binary_views(binaries: Seq<Vec<u8>>) -> Seq<Seq<u8>> {
    Seq::new(binaries.len(), |i: int| binaries[i]@)
}

/// A library after the first `upto` pairs of a token and a chord were added
/// to it, one after the other.
pub open spec fn updated(
    library: Map<Seq<char>, Seq<u8>>,
    tokens: Seq<Seq<char>>,
    binaries: Seq<Seq<u8>>,
    upto: nat,
) -> Map<Seq<char>, Seq<u8>>
    decreases upto,
{
    if upto == 0 {
        library
    } else {
        updated(library, tokens, binaries, (upto - 1) as nat).insert(
            tokens[upto - 1],
            binaries[upto - 1],
        )
    }
}

impl TokenLibrary {
    /// No token stands in two entries, and the size is the number of entries.
    pub open spec fn well_formed(&self) -> bool {
        &&& self.library_size == self.chord_tokens@.len()
        &&& forall|i: int, j: int|
            0 <= i < j < self.chord_tokens@.len() ==> (#[trigger] self.chord_tokens@[i]).token@ != (
            #[trigger] self.chord_tokens@[j]).token@
    }

    /// A library without tokens.
    pub fn new() -> (library: Self)
        ensures
            library@ == Map::<Seq<char>, Seq<u8>>::empty(),
            library.library_size == 0,
            library.well_formed(),
    {
        let library = TokenLibrary { chord_tokens: Vec::new(), library_size: 0 };
        assert(library@ =~= Map::<Seq<char>, Seq<u8>>::empty());
        library
    }

    /// Lets a token stand for a chord, in place of the chord that it stood
    /// for before, if any.
    pub fn add_chord_token(&mut self, token: String, chord_binary: Vec<u8>)
        ensures
            final(self)@ == old(self)@.insert(token@, chord_binary@),
            final(self).library_size == final(self).chord_tokens@.len(),
            old(self).well_formed() ==> final(self).well_formed(),
            final(self).chord_tokens@.len() == old(self).chord_tokens@.len() + (if old(
                self,
            )@.contains_key(token@) {
                0int
            } else {
                1int
            }),
    {
        let ghost before = self.chord_tokens@;
        let ghost key = token@;
        let ghost value = chord_binary@;
        let i = find_entry(&self.chord_tokens, token.as_str());
        proof {
            lemma_entry_index(before, key, 0);
        }
        let entry = TokenEntry { token, binary: chord_binary };
        if i < self.chord_tokens.len() {
            self.chord_tokens.set(i, entry);
        } else {
            self.chord_tokens.push(entry);
        }
        self.library_size = self.chord_tokens.len();
        proof {
            let after = self.chord_tokens@;
            let target = old(self)@.insert(key, value);
            assert forall|t: Seq<char>| #[trigger]
                self@.dom().contains(t) == target.dom().contains(t) by {
                lemma_entry_index(before, t, 0);
                if i < before.len() {
                    lemma_same_tokens(before, after, t, 0);
                } else {
                    lemma_pushed(before, entry, t, 0);
                }
            }
            assert forall|t: Seq<char>| #[trigger] self@.dom().contains(t) implies self@[t]
                == target[t] by {
                lemma_entry_index(before, t, 0);
                if i < before.len() {
                    lemma_same_tokens(before, after, t, 0);
                } else {
                    lemma_pushed(before, entry, t, 0);
                }
            }
            assert(self@ =~= old(self)@.insert(key, value));
        }
    }

    /// The chord that a token stands for.
    pub fn resolve_chord_token(&self, token: &str) -> (r: SerializationResult<Vec<u8>>)
        ensures
            r is Ok <==> self@.contains_key(token@),
            r matches Ok(binary) ==> binary@ == self@[token@],
            r matches Err(e) ==> (e matches SerializationError::InvalidFormat { message }
                && message@ == "Token not found in library: "@ + token@),
    {
        let i = find_entry(&self.chord_tokens, token);
        if i < self.chord_tokens.len() {
            Ok(copy_bytes(&self.chord_tokens[i].binary))
        } else {
            let mut message = String::from_str("Token not found in library: ");
            message.append(token);
            Err(SerializationError::InvalidFormat { message })
        }
    }

    /// Adds the tokens with their chords, pair by pair, as far as both lists go.
    pub fn update_library(&mut self, tokens: Vec<String>, chord_binaries: Vec<Vec<u8>>)
        ensures
            final(self)@ == updated(
                old(self)@,
                texts(tokens@),
                binary_views(chord_binaries@),
                if tokens@.len() <= chord_binaries@.len() {
                    tokens@.len()
                } else {
                    chord_binaries@.len()
                },
            ),
            final(self).library_size == final(self).chord_tokens@.len(),
            old(self).well_formed() ==> final(self).well_formed(),
    {
        let n = if tokens.len() <= chord_binaries.len() {
            tokens.len()
        } else {
            chord_binaries.len()
        };
        self.library_size = self.chord_tokens.len();
        let mut i: usize = 0;
        while i < n
            invariant
                i <= n,
                n <= tokens@.len(),
                n <= chord_binaries@.len(),
                self@ == updated(
                    old(self)@,
                    texts(tokens@),
                    binary_views(chord_binaries@),
                    i as nat,
                ),
                self.library_size == self.chord_tokens@.len(),
                old(self).well_formed() ==> self.well_formed(),
            decreases n - i,
        {
            let token = tokens[i].clone();
            let binary = copy_bytes(&chord_binaries[i]);
            self.add_chord_token(token, binary);
            i = i + 1;
        }
    }

    /// The number of tokens in the library.
    pub fn get_library_size(&self) -> (n: usize)
        ensures
            n == self.library_size,
    {
        self.library_size
    }
}

impl Default for TokenLibrary {
    fn default() -> (library: Self)
        ensures
            library@ == Map::<Seq<char>, Seq<u8>>::empty(),
            library.well_formed(),
    {
        TokenLibrary::new()
    }
}

/// The digits of a number in hexadecimal, in small letters, without leading zeros.
pub open spec fn hex_digits(n: nat) -> Seq<char>
    decreases n,
{
    if n < 16 {
        seq![HEX_DIGITS@[n as int]]
    } else {
        hex_digits(n / 16).push(HEX_DIGITS@[(n % 16) as int])
    }
}

/// A number written in hexadecimal.
pub fn hex_number_text(n: u32) -> (s: String)
    ensures
        s@ == hex_digits(n as nat),
    decreases n,
{
    if n < 16 {
        let mut s = String::new();
        push_char(&mut s, HEX_DIGITS[n as usize]);
        assert(s@ =~= seq![HEX_DIGITS@[n as int]]);
        s
    } else {
        let mut s = hex_number_text(n / 16);
        push_char(&mut s, HEX_DIGITS[(n % 16) as usize]);
        s
    }
}

/// Whether a character is a digit in the given radix.
pub open spec fn is_digit(c: char, radix: nat) -> bool {
    hex_value(c) matches Some(v) && v < radix
}

/// The value of a digit; 0 for any other character.
pub open spec fn digit_or_zero(c: char) -> nat {
    match hex_value(c) {
        Some(v) => v as nat,
        None => 0,
    }
}

/// The value of the first `upto` digits in the given radix.
pub open spec fn digits_value(digits: Seq<char>, radix: nat, upto: nat) -> nat
    decreases upto,
{
    if upto == 0 || upto > digits.len() {
        0
    } else {
        digits_value(digits, radix, (upto - 1) as nat) * radix + digit_or_zero(digits[upto - 1])
    }
}

/// A text without the plus sign that it may begin with.
pub open spec fn unsigned_part(text: Seq<char>) -> Seq<char> {
    if text.len() > 0 && text[0] == '+' {
        text.drop_first()
    } else {
        text
    }
}

/// The number that a text spells in the given radix: digits, with a plus
/// sign before them or none. `None` where there is no digit, where another
/// character stands among them, and where the number is above the limit.
pub open spec fn number_of(text: Seq<char>, radix: nat, limit: nat) -> Option<nat> {
    let digits = unsigned_part(text);
    if digits.len() == 0 {
        None
    } else if exists|i: int| 0 <= i < digits.len() && !is_digit(#[trigger] digits[i], radix) {
        None
    } else if digits_value(digits, radix, digits.len()) > limit {
        None
    } else {
        Some(digits_value(digits, radix, digits.len()))
    }
}

/// With more digits the value does not fall.
proof fn lemma_digits_grow(digits: Seq<char>, radix: nat, from: nat, upto: nat)
    requires
        radix >= 1,
        from <= upto <= digits.len(),
    ensures
        digits_value(digits, radix, from) <= digits_value(digits, radix, upto),
    decreases upto - from,
{
    if from < upto {
        lemma_digits_grow(digits, radix, from, (upto - 1) as nat);
        let before = digits_value(digits, radix, (upto - 1) as nat);
        assert(before * radix >= before) by (nonlinear_arith)
            requires
                radix >= 1,
                before >= 0,
        ;
    }
}

/// The number that the characters from `from` up to `to` spell.
pub fn parse_number(chars: &Vec<char>, from: usize, to: usize, radix: u8, limit: u32) -> (r:
    Option<u32>)
    requires
        from <= to <= chars@.len(),
        2 <= radix <= 16,
    ensures
        r matches Some(n) ==> number_of(chars@.subrange(from as int, to as int), radix as nat, limit as nat)
            == Some(n as nat),
        r is None ==> number_of(chars@.subrange(from as int, to as int), radix as nat, limit as nat)
            is None,
{
    let ghost text = chars@.subrange(from as int, to as int);
    let ghost digits = unsigned_part(text);
    let start = if from < to && chars[from] == '+' {
        from + 1
    } else {
        from
    };
    assert(digits =~= chars@.subrange(start as int, to as int));
    if start == to {
        return None;
    }
    let mut value: u64 = 0;
    let mut i: usize = start;
    while i < to
        invariant
            start <= i <= to <= chars@.len(),
            2 <= radix <= 16,
            from <= start,
            digits == chars@.subrange(start as int, to as int),
            digits == unsigned_part(chars@.subrange(from as int, to as int)),
            value == digits_value(digits, radix as nat, (i - start) as nat),
            value <= limit,
            forall|k: int| 0 <= k < i - start ==> is_digit(#[trigger] digits[k], radix as nat),
        decreases to - i,
    {
        assert(digits[i - start] == chars@[i as int]);
        let digit = match hex_digit_value(chars[i]) {
            Some(v) => v,
            None => {
                assert(!is_digit(digits[i - start], radix as nat));
                return None;
            },
        };
        if digit >= radix {
            assert(!is_digit(digits[i - start], radix as nat));
            return None;
        }
        assert(digits[i - start] == chars@[i as int]);
        assert(value * radix <= 0xFFFF_FFFF * 16) by (nonlinear_arith)
            requires
                value <= 0xFFFF_FFFF,
                radix <= 16,
        ;
        let next: u64 = value * (radix as u64) + digit as u64;
        assert(next == digits_value(digits, radix as nat, (i + 1 - start) as nat));
        if next > limit as u64 {
            proof {
                lemma_digits_grow(digits, radix as nat, (i + 1 - start) as nat, digits.len());
            }
            return None;
        }
        value = next;
        i = i + 1;
    }
    Some(value as u32)
}

/// The ticks of a duration in millionths of a beat, rounded to the nearest
/// tick, the half upwards; none for a duration below zero, and no more than
/// 32 bits hold.
pub open spec fn duration_ticks(micros: int) -> nat {
    if micros <= 0 {
        0
    } else if (micros * 24 + 500_000) / 1_000_000 > u32::MAX {
        u32::MAX as nat
    } else {
        ((micros * 24 + 500_000) / 1_000_000) as nat
    }
}

/// The ticks of a duration.
fn ticks_of(duration: Fixed) -> (ticks: u32)
    ensures
        ticks == duration_ticks(duration.micros as int),
{
    let micros = duration.micros as i128;
    if micros <= 0 {
        0
    } else {
        let ticks: i128 = (micros * 24 + 500_000) / 1_000_000;
        if ticks > u32::MAX as i128 {
            u32::MAX
        } else {
            ticks as u32
        }
    }
}

/// The token of a duration: `D_` and its ticks in hexadecimal.
pub fn tokenize_duration(duration: Fixed) -> (token: String)
    ensures
        token@ == "D_"@ + hex_digits(duration_ticks(duration.micros as int)),
{
    let mut token = String::from_str("D_");
    let digits = hex_number_text(ticks_of(duration));
    token.append(digits.as_str());
    token
}

/// The duration of a token in millionths of a beat, rounded down: the token
/// is `D_` and a number of ticks in hexadecimal that 32 bits hold.
pub open spec fn token_duration(token: Seq<char>) -> Option<int> {
    if token.len() >= 2 && token[0] == 'D' && token[1] == '_' {
        match number_of(token.subrange(2, token.len() as int), 16, u32::MAX as nat) {
            Some(ticks) => Some(ticks as int * 1_000_000 / 24),
            None => None,
        }
    } else {
        None
    }
}

/// The duration that a token spells.
pub fn parse_duration_token(token: &str) -> (r: SerializationResult<Fixed>)
    ensures
        r is Ok <==> token_duration(token@) is Some,
        r matches Ok(duration) ==> Some(duration.micros as int) == token_duration(token@),
        r matches Err(e) ==> e is InvalidFormat,
{
    let chars = chars_of(token);
    parse_duration_chars(&chars)
}

/// The duration that the characters of a token spell.
fn parse_duration_chars(chars: &Vec<char>) -> (r: SerializationResult<Fixed>)
    ensures
        r is Ok <==> token_duration(chars@) is Some,
        r matches Ok(duration) ==> Some(duration.micros as int) == token_duration(chars@),
        r matches Err(e) ==> e is InvalidFormat,
{
    if chars.len() < 2 || chars[0] != 'D' || chars[1] != '_' {
        return Err(
            SerializationError::InvalidFormat {
                message: String::from_str("Invalid duration token prefix"),
            },
        );
    }
    match parse_number(chars, 2, chars.len(), 16, u32::MAX) {
        Some(ticks) => {
            let micros: u64 = ticks as u64 * 1_000_000 / 24;
            Ok(Fixed { micros: micros as i64 })
        },
        None => Err(
            SerializationError::InvalidFormat {
                message: String::from_str("Invalid hexadecimal in duration token"),
            },
        ),
    }
}

/// The chromatic step of a note that is no rest.
pub open spec fn note_step(note: Note) -> nat {
    ((note.octave * 12 + note.scale_degree + 12) % 12) as nat
}

/// The octave of a note that is no rest, in eight bits and kept between the
/// lowest and the highest octave of a token.
pub open spec fn note_octave(note: Note) -> nat {
    let octave = ((note.octave * 12 + note.scale_degree) / 12) % 256;
    if octave < 2 {
        2
    } else if octave > 7 {
        7
    } else {
        octave as nat
    }
}

/// The token of a note: the token of a rest, or the chromatic step and the
/// octave with their prefixes.
pub open spec fn note_text(note: Note) -> Seq<char> {
    if note.is_rest {
        "NOTE-REST"@
    } else {
        "R_"@ + hex_digits(note_step(note)) + " O_"@ + hex_digits(note_octave(note))
    }
}

/// The token of a note. The scale has no part in it.
pub fn tokenize_note_as_raw(note: &Note, _scale: &ScaleFingerprint) -> (r: SerializationResult<
    String,
>)
    ensures
        r matches Ok(token) && token@ == note_text(*note),
{
    if note.is_rest {
        return Ok(String::from_str("NOTE-REST"));
    }
    let midi: u16 = note.octave as u16 * 12 + note.scale_degree as u16;
    let chromatic: u16 = (midi + 12) % 12;
    let wrapped: u16 = (midi / 12) % 256;
    let octave: u16 = if wrapped < 2 {
        2
    } else if wrapped > 7 {
        7
    } else {
        wrapped
    };
    let mut token = String::from_str("R_");
    token.append(hex_number_text(chromatic as u32).as_str());
    token.append(" O_");
    token.append(hex_number_text(octave as u32).as_str());
    Ok(token)
}

/// Whether a regular expression matches somewhere in a text; `None` where
/// the pattern is no regular expression.
pub uninterp spec fn regex_match(pattern: Seq<char>, text: Seq<char>) -> Option<bool>;

/// `Regex::new` and `Regex::is_match` of the `regex` crate: the pattern is
/// compiled and looked for in the text. The result is what the crate finds
/// for this pattern and this text, and `None` where it refuses the pattern.
#[verifier::external_body]
fn pattern_matches(pattern: &str, text: &str) -> (r: Option<bool>)
    ensures
        r == regex_match(pattern@, text@),
{
    match Regex::new(pattern) {
        Ok(expression) => Some(expression.is_match(text)),
        Err(_) => None,
    }
}

/// A token is accepted where its pattern was compiled and matched it.
pub fn token_accepted(matched: Option<bool>) -> (b: bool)
    ensures
        b == (matched == Some(true)),
{
    match matched {
        Some(found) => found,
        None => false,
    }
}

/// Whether a token has the form of a duration token.
pub fn validate_duration_token(token: &str) -> (b: bool)
    ensures
        b == (regex_match(DURATION_PATTERN@, token@) == Some(true)),
{
    token_accepted(pattern_matches(DURATION_PATTERN, token))
}

/// Whether a token has the form of a note token.
pub fn validate_raw_note_token(token: &str) -> (b: bool)
    ensures
        b == (regex_match(RAW_NOTE_PATTERN@, token@) == Some(true)),
{
    token_accepted(pattern_matches(RAW_NOTE_PATTERN, token))
}

/// Whether a token has the form of an octave token.
pub fn validate_octave_token(token: &str) -> (b: bool)
    ensures
        b == (regex_match(OCTAVE_PATTERN@, token@) == Some(true)),
{
    token_accepted(pattern_matches(OCTAVE_PATTERN, token))
}

/// Whether a token has the form of a chord cluster token.
pub fn validate_chord_cluster_token(token: &str) -> (b: bool)
    ensures
        b == (regex_match(CHORD_CLUSTER_PATTERN@, token@) == Some(true)),
{
    token_accepted(pattern_matches(CHORD_CLUSTER_PATTERN, token))
}

/// Whether a token has one of the four forms.
pub fn validate_token(token: &str) -> (b: bool)
    ensures
        b == (regex_match(DURATION_PATTERN@, token@) == Some(true) || regex_match(
            RAW_NOTE_PATTERN@,
            token@,
        ) == Some(true) || regex_match(OCTAVE_PATTERN@, token@) == Some(true) || regex_match(
            CHORD_CLUSTER_PATTERN@,
            token@,
        ) == Some(true)),
{
    validate_duration_token(token) || validate_raw_note_token(token) || validate_octave_token(
        token,
    ) || validate_chord_cluster_token(token)
}

/// The steps of the major scale above its first degree, in semitones.
pub const MAJOR_STEPS: [u8; 7] = [0, 2, 4, 5, 7, 9, 11];

/// The chromatic step of a scale degree in the major scale; degrees above
/// the seventh go round, and degree 0 counts as the first.
pub open spec fn major_step(degree: u8) -> u8 {
    MAJOR_STEPS@[if degree == 0 {
        0int
    } else {
        (degree - 1) % 7
    }]
}

/// The degree that stands `above` steps over the root, within the seven degrees.
pub open spec fn stacked_step(root: u8, above: int) -> int {
    (root - 1 + above) % 7 + 1
}

/// Whether a tone stands among the first `upto` of a list.
pub open spec fn has_tone(tones: Seq<u8>, upto: int, d: int) -> bool
    decreases upto,
{
    0 < upto <= tones.len() && (tones[upto - 1] == d || has_tone(tones, upto - 1, d))
}

/// Whether a degree belongs to a chord's token: the root, the third and the
/// fifth above it, the seventh in a seventh or ninth chord, the ninth in a
/// ninth chord, and the added tones.
pub open spec fn is_token_degree(chord: ChordModel, d: int) -> bool {
    ||| d == chord.root
    ||| d == stacked_step(chord.root, 2)
    ||| d == stacked_step(chord.root, 4)
    ||| ((chord.chord_type == 7 || chord.chord_type == 9) && d == stacked_step(chord.root, 6))
    ||| (chord.chord_type == 9 && d == stacked_step(chord.root, 1))
    ||| has_tone(chord.adds, chord.adds.len() as int, d)
}

/// The degrees of a chord's token below `below`, in rising order, each once.
pub open spec fn token_degrees(chord: ChordModel, below: int) -> Seq<u8>
    decreases below,
{
    if below <= 0 {
        Seq::empty()
    } else if is_token_degree(chord, below - 1) {
        token_degrees(chord, below - 1).push((below - 1) as u8)
    } else {
        token_degrees(chord, below - 1)
    }
}

/// The tokens of the first `upto` degrees, with hyphens between them: each
/// is `R_` and the chromatic step of the degree in hexadecimal.
pub open spec fn cluster_text(degrees: Seq<u8>, upto: nat) -> Seq<char>
    decreases upto,
{
    if upto == 0 || upto > degrees.len() {
        Seq::empty()
    } else if upto == 1 {
        "R_"@ + hex_digits(major_step(degrees[0]) as nat)
    } else {
        cluster_text(degrees, (upto - 1) as nat) + "-"@ + "R_"@ + hex_digits(
            major_step(degrees[upto - 1]) as nat,
        )
    }
}

/// Marks a degree in a table of 256 marks.
fn mark(present: &mut Vec<bool>, d: u8)
    requires
        old(present)@.len() == 256,
    ensures
        final(present)@ == old(present)@.update(d as int, true),
{
    present.set(d as usize, true);
}

/// The degree that stands `above` steps over the root.
fn stacked(root: u8, above: u8) -> (d: u8)
    requires
        1 <= above <= 6,
    ensures
        d == stacked_step(root, above as int),
{
    ((root as u16 + above as u16 - 1) % 7 + 1) as u8
}

/// The token of a chord: its degrees in rising order, each as the token of
/// its chromatic step in the major scale. The scale has no part in it.
pub fn tokenize_chord_as_raw(chord: &Chord, _scale: &ScaleFingerprint) -> (r: SerializationResult<
    String,
>)
    ensures
        r matches Ok(token) && token@ == cluster_text(
            token_degrees(chord@, 256),
            token_degrees(chord@, 256).len(),
        ),
{
    let ghost model = chord@;
    let mut present: Vec<bool> = Vec::new();
    while present.len() < 256
        invariant
            present@.len() <= 256,
            forall|d: int| 0 <= d < present@.len() ==> !present@[d],
        decreases 256 - present@.len(),
    {
        present.push(false);
    }
    mark(&mut present, chord.root);
    mark(&mut present, stacked(chord.root, 2));
    mark(&mut present, stacked(chord.root, 4));
    if chord.chord_type == 7 || chord.chord_type == 9 {
        mark(&mut present, stacked(chord.root, 6));
    }
    if chord.chord_type == 9 {
        mark(&mut present, stacked(chord.root, 1));
    }
    let adds = chord.adds.as_slice();
    let mut i: usize = 0;
    while i < adds.len()
        invariant
            i <= adds@.len(),
            adds@ == model.adds,
            model == chord@,
            present@.len() == 256,
            forall|d: int|
                0 <= d < 256 ==> (#[trigger] present@[d]) == (d == model.root || d == stacked_step(
                    model.root,
                    2,
                ) || d == stacked_step(model.root, 4) || ((model.chord_type == 7
                    || model.chord_type == 9) && d == stacked_step(model.root, 6)) || (
                model.chord_type == 9 && d == stacked_step(model.root, 1)) || has_tone(
                    model.adds,
                    i as int,
                    d,
                )),
        decreases adds@.len() - i,
    {
        mark(&mut present, adds[i]);
        i = i + 1;
    }
    let mut degrees: Vec<u8> = Vec::new();
    let mut d: usize = 0;
    while d < 256
        invariant
            d <= 256,
            present@.len() == 256,
            model == chord@,
            forall|k: int| 0 <= k < 256 ==> (#[trigger] present@[k]) == is_token_degree(model, k),
            degrees@ == token_degrees(model, d as int),
        decreases 256 - d,
    {
        if present[d] {
            degrees.push(d as u8);
        }
        d = d + 1;
    }
    Ok(cluster_token(&degrees))
}

/// The tokens of a list of degrees, with hyphens between them.
fn cluster_token(degrees: &Vec<u8>) -> (token: String)
    ensures
        token@ == cluster_text(degrees@, degrees@.len()),
{
    let mut token = String::new();
    let mut i: usize = 0;
    while i < degrees.len()
        invariant
            i <= degrees@.len(),
            token@ == cluster_text(degrees@, i as nat),
        decreases degrees@.len() - i,
    {
        let ghost before = token@;
        if i > 0 {
            token.append("-");
        }
        token.append("R_");
        let degree = degrees[i];
        let place: u8 = if degree == 0 {
            0
        } else {
            (degree - 1) % 7
        };
        token.append(hex_number_text(MAJOR_STEPS[place as usize] as u32).as_str());
        assert(token@ =~= cluster_text(degrees@, (i + 1) as nat));
        i = i + 1;
    }
    token
}

/// What happens at a beat: a note, a chord or a rest.
#[derive(Debug)]
pub enum TokenEventType {
    Note(Note),
    Chord(Chord),
    Rest,
}

/// Something that happens at a beat.
#[derive(Debug)]
pub struct TokenEvent {
    pub beat: Fixed,
    pub event_type: TokenEventType,
}

/// Events in the order of their beats.
#[derive(Debug)]
pub struct Timeline {
    pub events: Vec<TokenEvent>,
    pub total_duration: Fixed,
}

/// What an event is, as a value.
pub enum EventKind {
    Note(Note),
    Chord(ChordModel),
    Rest,
}

/// An event as a value: its beat in millionths, and what happens there.
pub struct EventModel {
    pub beat: int,
    pub kind: EventKind,
}

/// A timeline as a value.
pub struct TimelineModel {
    pub events: Seq<EventModel>,
    pub total: int,
}

impl View for TokenEventType {
    type V = EventKind;

    open spec fn view(&self) -> EventKind {
        match self {
            TokenEventType::Note(note) => EventKind::Note(*note),
            TokenEventType::Chord(chord) => EventKind::Chord(chord@),
            TokenEventType::Rest => EventKind::Rest,
        }
    }
}

impl View for TokenEvent {
    type V = EventModel;

    open spec fn view(&self) -> EventModel {
        EventModel { beat: self.beat.micros as int, kind: self.event_type@ }
    }
}

/// The events of a list, as values.
pub open spec fn event_models(events: Seq<TokenEvent>) -> Seq<EventModel> {
    Seq::new(events.len(), |i: int| events[i]@)
}

impl View for Timeline {
    type V = TimelineModel;

    open spec fn view(&self) -> TimelineModel {
        TimelineModel {
            events: event_models(self.events@),
            total: self.total_duration.micros as int,
        }
    }
}

impl Scored for EventModel {
    /// An earlier event scores higher, so that events in falling order of
    /// their scores stand in rising order of their beats.
    open spec fn score(&self) -> int {
        -self.beat
    }
}

impl Clone for TokenEvent {
    fn clone(&self) -> (event: Self)
        ensures
            event@ == self@,
    {
        let event_type = match &self.event_type {
            TokenEventType::Note(note) => TokenEventType::Note(*note),
            TokenEventType::Chord(chord) => TokenEventType::Chord(chord.clone()),
            TokenEventType::Rest => TokenEventType::Rest,
        };
        TokenEvent { beat: self.beat, event_type }
    }
}

/// Whether a text begins with another.
pub open spec fn has_prefix(text: Seq<char>, prefix: Seq<char>) -> bool {
    text.len() >= prefix.len() && text.subrange(0, prefix.len() as int) == prefix
}

/// Whether a text ends with another.
pub open spec fn has_suffix(text: Seq<char>, suffix: Seq<char>) -> bool {
    text.len() >= suffix.len() && text.subrange(text.len() - suffix.len(), text.len() as int)
        == suffix
}

/// Whether the characters from `at` on are those of `part`.
fn holds_at(chars: &Vec<char>, at: usize, part: &str) -> (b: bool)
    requires
        at <= chars@.len(),
    ensures
        b == (chars@.len() - at >= part@.len() && chars@.subrange(
            at as int,
            at + part@.len(),
        ) == part@),
{
    let n = part.unicode_len();
    if chars.len() - at < n {
        return false;
    }
    let mut i: usize = 0;
    while i < n
        invariant
            i <= n,
            n == part@.len(),
            at + n <= chars@.len() <= usize::MAX,
            chars@.subrange(at as int, at + i) == part@.subrange(0, i as int),
        decreases n - i,
    {
        if chars[at + i] != part.get_char(i) {
            assert(chars@.subrange(at as int, at + n)[i as int] != part@[i as int]);
            return false;
        }
        assert(chars@.subrange(at as int, at + i + 1) =~= chars@.subrange(at as int, at + i).push(
            chars@[at + i],
        ));
        assert(part@.subrange(0, i + 1) =~= part@.subrange(0, i as int).push(part@[i as int]));
        i = i + 1;
    }
    assert(part@.subrange(0, n as int) =~= part@);
    true
}

/// Whether the characters begin with `prefix`.
fn starts_with(chars: &Vec<char>, prefix: &str) -> (b: bool)
    ensures
        b == has_prefix(chars@, prefix@),
{
    holds_at(chars, 0, prefix)
}

/// Whether the characters end with `suffix`.
fn ends_with(chars: &Vec<char>, suffix: &str) -> (b: bool)
    ensures
        b == has_suffix(chars@, suffix@),
{
    let n = suffix.unicode_len();
    if chars.len() < n {
        false
    } else {
        holds_at(chars, chars.len() - n, suffix)
    }
}

/// The index of the first `mark` from `from` on; the length where there is none.
pub open spec fn first_mark(text: Seq<char>, mark: char, from: int) -> int
    decreases text.len() - from,
{
    if from < 0 || from >= text.len() {
        text.len() as int
    } else if text[from] == mark {
        from
    } else {
        first_mark(text, mark, from + 1)
    }
}

/// The index of the first `mark` from `from` on.
fn find_mark(chars: &Vec<char>, mark: char, from: usize) -> (i: usize)
    requires
        from <= chars@.len(),
    ensures
        i == first_mark(chars@, mark, from as int),
        from <= i <= chars@.len(),
{
    let mut i: usize = from;
    while i < chars.len()
        invariant
            from <= i <= chars@.len(),
            first_mark(chars@, mark, from as int) == first_mark(chars@, mark, i as int),
        decreases chars@.len() - i,
    {
        if chars[i] == mark {
            return i;
        }
        i = i + 1;
    }
    i
}

/// The note of a token of three parts with hyphens between them, the second
/// a number up to 255 in decimal: the number's place in its twelve is the
/// degree, and the count of twelves in it the octave.
pub open spec fn midi_note(token: Seq<char>) -> Option<Note> {
    let first = first_mark(token, '-', 0);
    let second = first_mark(token, '-', first + 1);
    if first < token.len() && second < token.len() && first_mark(token, '-', second + 1)
        == token.len() {
        match number_of(token.subrange(first + 1, second), 10, 255) {
            Some(n) => Some(
                Note { scale_degree: (n % 12) as u8, octave: (n / 12) as u8, is_rest: false },
            ),
            None => None,
        }
    } else {
        None
    }
}

/// The note that a token of the form `NOTE-60-ON` spells.
pub fn parse_midi_note_token(token: &str) -> (r: SerializationResult<Note>)
    ensures
        r is Ok <==> midi_note(token@) is Some,
        r matches Ok(note) ==> Some(note) == midi_note(token@),
        r matches Err(e) ==> e is InvalidFormat,
{
    let chars = chars_of(token);
    match parse_midi_note(&chars) {
        Some(note) => Ok(note),
        None => Err(
            SerializationError::InvalidFormat {
                message: String::from_str("Invalid MIDI note token"),
            },
        ),
    }
}

/// The note that the characters of a token spell.
fn parse_midi_note(chars: &Vec<char>) -> (r: Option<Note>)
    ensures
        r == midi_note(chars@),
{
    let n = chars.len();
    let first = find_mark(chars, '-', 0);
    if first >= n {
        return None;
    }
    let second = find_mark(chars, '-', first + 1);
    if second >= n {
        return None;
    }
    if find_mark(chars, '-', second + 1) < n {
        return None;
    }
    match parse_number(chars, first + 1, second, 10, 255) {
        Some(value) => Some(
            Note { scale_degree: (value % 12) as u8, octave: (value / 12) as u8, is_rest: false },
        ),
        None => None,
    }
}

/// The highest whole number of beats of a delay.
pub const MAX_DELAY_BEATS: u32 = 1_000_000_000;

/// The value of a decimal digit; 0 for any other character.
pub open spec fn decimal_or_zero(c: char) -> nat {
    if is_digit(c, 10) {
        digit_or_zero(c)
    } else {
        0
    }
}

/// The millionths that the first `upto` digits behind a point make, of six.
pub open spec fn fraction_micros(digits: Seq<char>, upto: nat) -> nat
    decreases upto,
{
    if upto == 0 {
        0
    } else {
        fraction_micros(digits, (upto - 1) as nat) * 10 + (if upto <= digits.len() {
            decimal_or_zero(digits[upto - 1])
        } else {
            0
        })
    }
}

/// What stands before the first point of a text.
pub open spec fn whole_part(text: Seq<char>) -> Seq<char> {
    text.subrange(0, first_mark(text, '.', 0))
}

/// What stands behind the first point of a text.
pub open spec fn fraction_part(text: Seq<char>) -> Seq<char> {
    if first_mark(text, '.', 0) < text.len() {
        text.subrange(first_mark(text, '.', 0) + 1, text.len() as int)
    } else {
        Seq::empty()
    }
}

/// The amount that a text spells in decimal, in millionths and rounded
/// down: a whole number up to a thousand million, and behind a point, if
/// there is one, any digits.
pub open spec fn decimal_amount(text: Seq<char>) -> Option<int> {
    let whole = number_of(whole_part(text), 10, MAX_DELAY_BEATS as nat);
    let fraction = fraction_part(text);
    if whole is None {
        None
    } else if exists|i: int| 0 <= i < fraction.len() && !is_digit(#[trigger] fraction[i], 10) {
        None
    } else {
        Some((whole->0 * 1_000_000 + fraction_micros(fraction, 6)) as int)
    }
}

/// The delay of a token of two parts with a hyphen between them, the second
/// an amount in decimal.
pub open spec fn token_delay(token: Seq<char>) -> Option<int> {
    let first = first_mark(token, '-', 0);
    if first < token.len() && first_mark(token, '-', first + 1) == token.len() {
        decimal_amount(token.subrange(first + 1, token.len() as int))
    } else {
        None
    }
}

/// The amount that the characters from `from` on spell.
fn parse_amount(chars: &Vec<char>, from: usize) -> (r: Option<i64>)
    requires
        from <= chars@.len(),
    ensures
        r matches Some(amount) ==> decimal_amount(chars@.subrange(from as int, chars@.len() as int))
            == Some(amount as int),
        r is None ==> decimal_amount(chars@.subrange(from as int, chars@.len() as int)) is None,
        r matches Some(amount) ==> 0 <= amount <= 1_000_000_000_999_999,
{
    let n = chars.len();
    let ghost text = chars@.subrange(from as int, n as int);
    let point = find_mark(chars, '.', from);
    proof {
        lemma_mark_shifted(chars@, '.', from as int, from as int);
        assert(whole_part(text) =~= chars@.subrange(from as int, point as int));
    }
    let whole = match parse_number(chars, from, point, 10, MAX_DELAY_BEATS) {
        Some(w) => w,
        None => {
            return None;
        },
    };
    let ghost fraction = fraction_part(text);
    proof {
        if point < n {
            assert(fraction =~= chars@.subrange(point + 1, n as int));
        }
    }
    let mut micros: u32 = 0;
    let mut k: usize = 0;
    let mut i: usize = if point < n {
        point + 1
    } else {
        n
    };
    let start = i;
    while i < n
        invariant
            start <= i <= n,
            n == chars@.len(),
            fraction.len() == n - start,
            text == chars@.subrange(from as int, n as int),
            fraction == fraction_part(text),
            number_of(whole_part(text), 10, MAX_DELAY_BEATS as nat) == Some(whole as nat),
            forall|j: int| 0 <= j < fraction.len() ==> fraction[j] == chars@[start + j],
            forall|j: int| 0 <= j < i - start ==> is_digit(#[trigger] fraction[j], 10),
            k == (if i - start < 6 {
                i - start
            } else {
                6
            }),
            micros == fraction_micros(fraction, k as nat),
        decreases n - i,
    {
        let digit = match hex_digit_value(chars[i]) {
            Some(v) => v,
            None => {
                assert(!is_digit(fraction[i - start], 10));
                return None;
            },
        };
        if digit >= 10 {
            assert(!is_digit(fraction[i - start], 10));
            return None;
        }
        if k < 6 {
            proof {
                lemma_fraction_bound(fraction, k as nat);
                lemma_fraction_bound(fraction, (k + 1) as nat);
            }
            micros = micros * 10 + digit as u32;
            k = k + 1;
        }
        i = i + 1;
    }
    while k < 6
        invariant
            k <= 6,
            fraction.len() <= k || k == 6,
            micros == fraction_micros(fraction, k as nat),
        decreases 6 - k,
    {
        proof {
            lemma_fraction_bound(fraction, k as nat);
            lemma_fraction_bound(fraction, (k + 1) as nat);
        }
        micros = micros * 10;
        k = k + 1;
    }
    proof {
        lemma_fraction_bound(fraction, 6);
    }
    Some(whole as i64 * 1_000_000 + micros as i64)
}

/// The first `upto` digits behind a point make less than ten to the power `upto`.
proof fn lemma_fraction_bound(digits: Seq<char>, upto: nat)
    requires
        upto <= 6,
    ensures
        fraction_micros(digits, upto) < (if upto == 0 {
            1int
        } else if upto == 1 {
            10
        } else if upto == 2 {
            100
        } else if upto == 3 {
            1_000
        } else if upto == 4 {
            10_000
        } else if upto == 5 {
            100_000
        } else {
            1_000_000
        }),
    decreases upto,
{
    if upto > 0 {
        lemma_fraction_bound(digits, (upto - 1) as nat);
    }
}

/// A mark is found in the rest of a text where it is found in the whole
/// from there on.
proof fn lemma_mark_shifted(text: Seq<char>, mark: char, from: int, at: int)
    requires
        0 <= from <= at <= text.len(),
    ensures
        first_mark(text.subrange(from, text.len() as int), mark, at - from) == first_mark(
            text,
            mark,
            at,
        ) - from,
    decreases text.len() - at,
{
    let rest = text.subrange(from, text.len() as int);
    if at < text.len() {
        assert(rest[at - from] == text[at]);
        if text[at] != mark {
            lemma_mark_shifted(text, mark, from, at + 1);
        }
    }
}

/// The delay that the characters of a token spell.
fn parse_delay(chars: &Vec<char>) -> (r: Option<i64>)
    ensures
        r matches Some(amount) ==> token_delay(chars@) == Some(amount as int),
        r is None ==> token_delay(chars@) is None,
        r matches Some(amount) ==> 0 <= amount <= 1_000_000_000_999_999,
{
    let n = chars.len();
    let first = find_mark(chars, '-', 0);
    if first >= n {
        return None;
    }
    if find_mark(chars, '-', first + 1) < n {
        return None;
    }
    parse_amount(chars, first + 1)
}

/// The timeline after the first `upto` tokens: a note token puts its note at
/// the beat reached, a chord token the triad on the first degree, and a
/// delay token moves the beat on. A token that is none of these, or whose
/// number cannot be read, is passed over.
pub open spec fn midi_timeline(tokens: Seq<Seq<char>>, upto: nat) -> TimelineModel
    decreases upto,
{
    if upto == 0 || upto > tokens.len() {
        TimelineModel { events: Seq::empty(), total: 0 }
    } else {
        let before = midi_timeline(tokens, (upto - 1) as nat);
        let token = tokens[upto - 1];
        if has_prefix(token, "NOTE-"@) && has_suffix(token, "-ON"@) {
            match midi_note(token) {
                Some(note) => TimelineModel {
                    events: before.events.push(
                        EventModel { beat: before.total, kind: EventKind::Note(note) },
                    ),
                    ..before
                },
                None => before,
            }
        } else if has_prefix(token, "CHORD-"@) && has_suffix(token, "-ON"@) {
            TimelineModel {
                events: before.events.push(
                    EventModel {
                        beat: before.total,
                        kind: EventKind::Chord(ChordModel::plain(1, 5)),
                    },
                ),
                ..before
            }
        } else if has_prefix(token, "DELAY-"@) {
            match token_delay(token) {
                Some(delay) => TimelineModel {
                    total: clamp(before.total + delay, 0, i64::MAX as int),
                    ..before
                },
                None => before,
            }
        } else {
            before
        }
    }
}

/// The timeline that a list of tokens spells. The scale has no part in it.
/// The token of a rest has the form of a note token without a number, and
/// is passed over like any such.
pub fn detokenize_midi_like(tokens: &[String], _scale: &ScaleFingerprint) -> (r:
    SerializationResult<Timeline>)
    ensures
        r matches Ok(timeline) && timeline@ == midi_timeline(
            texts(tokens@),
            tokens@.len(),
        ),
{
    let ghost names = texts(tokens@);
    let mut events: Vec<TokenEvent> = Vec::new();
    let mut beat: i64 = 0;
    let mut i: usize = 0;
    while i < tokens.len()
        invariant
            i <= tokens@.len(),
            names == texts(tokens@),
            0 <= beat,
            beat == midi_timeline(names, i as nat).total,
            event_models(events@) == midi_timeline(names, i as nat).events,
        decreases tokens@.len() - i,
    {
        let chars = chars_of(tokens[i].as_str());
        assert(chars@ == names[i as int]);
        let ghost before = event_models(events@);
        if starts_with(&chars, "NOTE-") && ends_with(&chars, "-ON") {
            match parse_midi_note(&chars) {
                Some(note) => {
                    let event = TokenEvent {
                        beat: Fixed { micros: beat },
                        event_type: TokenEventType::Note(note),
                    };
                    events.push(event);
                    assert(event_models(events@) =~= before.push(event@));
                },
                None => {},
            }
        } else if starts_with(&chars, "CHORD-") && ends_with(&chars, "-ON") {
            let event = TokenEvent {
                beat: Fixed { micros: beat },
                event_type: TokenEventType::Chord(first_triad()),
            };
            events.push(event);
            assert(event_models(events@) =~= before.push(event@));
        } else if starts_with(&chars, "DELAY-") {
            match parse_delay(&chars) {
                Some(delay) => {
                    beat = clamp_to(beat as i128 + delay as i128, 0, i64::MAX);
                },
                None => {},
            }
        }
        i = i + 1;
    }
    Ok(Timeline { events, total_duration: Fixed { micros: beat } })
}

/// The triad on the first degree.
fn first_triad() -> (chord: Chord)
    ensures
        chord@ == ChordModel::plain(1, 5),
{
    let mut chord = Chord::default();
    chord.root = 1;
    chord.chord_type = 5;
    chord
}

/// The form of a chord within a cluster.
pub const CHORD_ELEMENT_PATTERN: &'static str = "<CHORD>(.*?)</CHORD>";

/// The form of a group of notes within a cluster.
pub const NOTES_ELEMENT_PATTERN: &'static str = "<NOTES>(.*?)</NOTES>";

/// The form of a duration within a cluster.
pub const DURATION_ELEMENT_PATTERN: &'static str = "D_([0-9a-f]+)";

/// The first part of a text that a regular expression matches, if there is
/// one; `None` where the pattern is no regular expression.
pub uninterp spec fn regex_first(pattern: Seq<char>, text: Seq<char>) -> Option<Option<Seq<char>>>;

/// The parts of a text that a regular expression matches, from left to
/// right and without overlap; `None` where the pattern is no regular
/// expression.
pub uninterp spec fn regex_all(pattern: Seq<char>, text: Seq<char>) -> Option<Seq<Seq<char>>>;

/// The text of an optional text.
pub open spec fn optional_text(found: Option<String>) -> Option<Seq<char>> {
    match found {
        Some(part) => Some(part@),
        None => None,
    }
}

/// The first match of a search, as a value.
pub open spec fn first_found(found: Option<Option<String>>) -> Option<Option<Seq<char>>> {
    match found {
        Some(part) => Some(optional_text(part)),
        None => None,
    }
}

/// The matches of a search, as values.
pub open spec fn all_found(found: Option<Vec<String>>) -> Option<Seq<Seq<char>>> {
    match found {
        Some(parts) => Some(texts(parts@)),
        None => None,
    }
}

/// `Regex::new` and `Regex::find` of the `regex` crate: the pattern is
/// compiled and its first match in the text is taken. The result is what
/// the crate finds for this pattern and this text, and `None` where it
/// refuses the pattern.
#[verifier::external_body]
fn pattern_first(pattern: &str, text: &str) -> (r: Option<Option<String>>)
    ensures
        first_found(r) == regex_first(pattern@, text@),
{
    match Regex::new(pattern) {
        Ok(expression) => Some(expression.find(text).map(|found| found.as_str().to_string())),
        Err(_) => None,
    }
}

/// `Regex::new` and `Regex::find_iter` of the `regex` crate: the pattern is
/// compiled and its matches in the text are taken in turn. The result is
/// what the crate finds for this pattern and this text, and `None` where it
/// refuses the pattern.
#[verifier::external_body]
fn pattern_all(pattern: &str, text: &str) -> (r: Option<Vec<String>>)
    ensures
        all_found(r) == regex_all(pattern@, text@),
{
    match Regex::new(pattern) {
        Ok(expression) => Some(
            expression.find_iter(text).map(|found| found.as_str().to_string()).collect(),
        ),
        Err(_) => None,
    }
}

/// What a cluster holds, as a value.
pub struct ClusterModel {
    pub chords: Seq<ChordModel>,
    pub notes: Seq<Note>,
    pub duration: int,
}

/// The note that stands for every group of notes: the first degree in the
/// fourth octave.
pub open spec fn group_note() -> Note {
    Note { scale_degree: 1, octave: 4, is_rest: false }
}

/// What a cluster holds, from what was found in it: for each chord found
/// the triad on the first degree, for each group of notes found one note,
/// and the duration of the first duration token, or none. `None` where a
/// search could not be made or the duration cannot be read.
pub open spec fn cluster_of(
    chords: Option<Seq<Seq<char>>>,
    notes: Option<Seq<Seq<char>>>,
    duration: Option<Option<Seq<char>>>,
) -> Option<ClusterModel> {
    if chords is None || notes is None || duration is None {
        None
    } else if duration->0 is Some && token_duration(duration->0->0) is None {
        None
    } else {
        Some(
            ClusterModel {
                chords: Seq::new(chords->0.len(), |i: int| ChordModel::plain(1, 5)),
                notes: Seq::new(notes->0.len(), |i: int| group_note()),
                duration: if duration->0 is Some {
                    token_duration(duration->0->0)->0
                } else {
                    0
                },
            },
        )
    }
}

/// The chords of a list, as values.
pub open spec fn chord_models(chords: Seq<Chord>) -> Seq<ChordModel> {
    Seq::new(chords.len(), |i: int| chords[i]@)
}

/// What a cluster holds, as a value.
pub open spec fn cluster_model(cluster: (Vec<Chord>, Vec<Note>, Fixed)) -> ClusterModel {
    ClusterModel {
        chords: chord_models(cluster.0@),
        notes: cluster.1@,
        duration: cluster.2.micros as int,
    }
}

/// What a cluster holds, from what was found in it.
pub fn assemble_cluster(
    chords: Option<Vec<String>>,
    notes: Option<Vec<String>>,
    duration: Option<Option<String>>,
) -> (r: SerializationResult<(Vec<Chord>, Vec<Note>, Fixed)>)
    ensures
        r is Ok <==> cluster_of(all_found(chords), all_found(notes), first_found(duration))
            is Some,
        r matches Ok(cluster) ==> Some(cluster_model(cluster)) == cluster_of(
            all_found(chords),
            all_found(notes),
            first_found(duration),
        ),
        r matches Err(e) ==> e is InvalidFormat,
{
    let chord_parts = match chords {
        Some(parts) => parts,
        None => {
            return Err(
                SerializationError::InvalidFormat {
                    message: String::from_str("Failed to compile chord regex"),
                },
            );
        },
    };
    let note_parts = match notes {
        Some(parts) => parts,
        None => {
            return Err(
                SerializationError::InvalidFormat {
                    message: String::from_str("Failed to compile note regex"),
                },
            );
        },
    };
    let first = match duration {
        Some(part) => part,
        None => {
            return Err(
                SerializationError::InvalidFormat {
                    message: String::from_str("Failed to compile duration regex"),
                },
            );
        },
    };
    let total = match first {
        Some(token) => {
            match parse_duration_token(token.as_str()) {
                Ok(d) => d,
                Err(e) => {
                    return Err(e);
                },
            }
        },
        None => Fixed { micros: 0 },
    };
    let mut found_chords: Vec<Chord> = Vec::new();
    let mut i: usize = 0;
    while i < chord_parts.len()
        invariant
            i <= chord_parts@.len(),
            found_chords@.len() == i,
            forall|k: int| 0 <= k < i ==> (#[trigger] found_chords@[k])@ == ChordModel::plain(1, 5),
        decreases chord_parts@.len() - i,
    {
        found_chords.push(first_triad());
        i = i + 1;
    }
    let mut found_notes: Vec<Note> = Vec::new();
    let mut j: usize = 0;
    while j < note_parts.len()
        invariant
            j <= note_parts@.len(),
            found_notes@.len() == j,
            forall|k: int| 0 <= k < j ==> (#[trigger] found_notes@[k]) == group_note(),
        decreases note_parts@.len() - j,
    {
        found_notes.push(Note { scale_degree: 1, octave: 4, is_rest: false });
        j = j + 1;
    }
    let cluster = (found_chords, found_notes, total);
    proof {
        let wanted = cluster_of(all_found(chords), all_found(notes), first_found(duration))->0;
        assert(cluster_model(cluster).chords =~= wanted.chords);
        assert(cluster_model(cluster).notes =~= wanted.notes);
    }
    Ok(cluster)
}

/// The chords, the notes and the duration of a cluster of tokens: what the
/// three forms find in it. The scale has no part in it.
pub fn detokenize_cluster(token_string: &str, _scale: &ScaleFingerprint) -> (r:
    SerializationResult<(Vec<Chord>, Vec<Note>, Fixed)>)
    ensures
        r is Ok <==> cluster_of(
            regex_all(CHORD_ELEMENT_PATTERN@, token_string@),
            regex_all(NOTES_ELEMENT_PATTERN@, token_string@),
            regex_first(DURATION_ELEMENT_PATTERN@, token_string@),
        ) is Some,
        r matches Ok(cluster) ==> Some(cluster_model(cluster)) == cluster_of(
            regex_all(CHORD_ELEMENT_PATTERN@, token_string@),
            regex_all(NOTES_ELEMENT_PATTERN@, token_string@),
            regex_first(DURATION_ELEMENT_PATTERN@, token_string@),
        ),
        r matches Err(e) ==> e is InvalidFormat,
{
    let chords = pattern_all(CHORD_ELEMENT_PATTERN, token_string);
    let notes = pattern_all(NOTES_ELEMENT_PATTERN, token_string);
    let duration = pattern_first(DURATION_ELEMENT_PATTERN, token_string);
    assemble_cluster(chords, notes, duration)
}

/// A beat in millionths at the nearest tick, the half away from zero, and
/// then in millionths again, rounded towards zero.
pub open spec fn quantized(micros: int) -> int {
    if micros >= 0 {
        ((micros * 24 + 500_000) / 1_000_000) * 1_000_000 / 24
    } else {
        -(((-micros * 24 + 500_000) / 1_000_000) * 1_000_000 / 24)
    }
}

/// An event at the tick nearest to its beat.
pub open spec fn quantized_event(event: EventModel) -> EventModel {
    EventModel {
        beat: clamp(quantized(event.beat), i64::MIN as int, i64::MAX as int),
        ..event
    }
}

/// The timeline of a list of events: the events in the order of their
/// beats, those of one beat in the order in which they came, each at the
/// tick nearest to its beat; its duration is the last beat before that
/// rounding.
pub open spec fn timeline_of(events: Seq<EventModel>) -> TimelineModel {
    let ordered = sorted_desc(events);
    TimelineModel {
        events: Seq::new(ordered.len(), |i: int| quantized_event(ordered[i])),
        total: if ordered.len() == 0 {
            0
        } else {
            ordered.last().beat
        },
    }
}

/// The beat at the nearest tick.
fn quantize(beat: Fixed) -> (r: Fixed)
    ensures
        r.micros == clamp(quantized(beat.micros as int), i64::MIN as int, i64::MAX as int),
{
    let micros = beat.micros as i128;
    let q: i128 = if micros >= 0 {
        ((micros * 24 + 500_000) / 1_000_000) * 1_000_000 / 24
    } else {
        -(((-micros * 24 + 500_000) / 1_000_000) * 1_000_000 / 24)
    };
    Fixed { micros: clamp_to(q, i64::MIN, i64::MAX) }
}

/// The events in the order of their beats.
fn order_events(events: &Vec<TokenEvent>) -> (ordered: Vec<TokenEvent>)
    ensures
        event_models(ordered@) == sorted_desc(event_models(events@)),
{
    let ghost all = event_models(events@);
    let mut ordered: Vec<TokenEvent> = Vec::new();
    let mut i: usize = 0;
    assert(all.subrange(0, 0) =~= Seq::<EventModel>::empty());
    assert(event_models(ordered@) =~= sorted_desc(all.subrange(0, 0)));
    while i < events.len()
        invariant
            i <= events@.len(),
            all == event_models(events@),
            event_models(ordered@) == sorted_desc(all.subrange(0, i as int)),
        decreases events@.len() - i,
    {
        let event = events[i].clone();
        let ghost acc = event_models(ordered@);
        let ghost w = event@.score();
        let mut p: usize = 0;
        while p < ordered.len() && ordered[p].beat.micros <= event.beat.micros
            invariant
                p <= ordered@.len(),
                acc == event_models(ordered@),
                w == event@.score(),
                insertion_point(acc, w, 0) == insertion_point(acc, w, p as int),
            decreases ordered@.len() - p,
        {
            assert(acc[p as int].score() >= w);
            p = p + 1;
        }
        assert(insertion_point(acc, w, 0) == p) by {
            if p < ordered@.len() {
                assert(acc[p as int].score() < w);
            }
        }
        ordered.insert(p, event);
        assert(event_models(ordered@) =~= acc.insert(p as int, event@));
        proof {
            let next = all.subrange(0, i + 1);
            assert(next.drop_last() =~= all.subrange(0, i as int));
            assert(next.last() == event@);
        }
        i = i + 1;
    }
    assert(all.subrange(0, events@.len() as int) =~= all);
    ordered
}

/// The timeline of a list of events.
pub fn reconstruct_timeline(events: Vec<TokenEvent>) -> (timeline: Timeline)
    ensures
        timeline@ == timeline_of(event_models(events@)),
{
    let mut ordered = order_events(&events);
    let ghost sorted = event_models(ordered@);
    let total = if ordered.len() == 0 {
        Fixed { micros: 0 }
    } else {
        ordered[ordered.len() - 1].beat
    };
    let mut result: Vec<TokenEvent> = Vec::new();
    let mut i: usize = 0;
    while i < ordered.len()
        invariant
            i <= ordered@.len(),
            sorted == event_models(ordered@),
            result@.len() == i,
            forall|k: int| 0 <= k < i ==> (#[trigger] result@[k])@ == quantized_event(sorted[k]),
        decreases ordered@.len() - i,
    {
        let event = ordered[i].clone();
        result.push(TokenEvent { beat: quantize(event.beat), event_type: event.event_type });
        i = i + 1;
    }
    let timeline = Timeline { events: result, total_duration: total };
    assert(timeline@.events =~= timeline_of(event_models(events@)).events);
    timeline
}

} // verus!
