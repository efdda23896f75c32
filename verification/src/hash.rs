//! Hashing of texts, and the compact text form of a scale fingerprint.
//!
//! A fingerprint of twelve flags is written as the runs of equal flags, the
//! runs as text in an alphabet of sixty-four characters, and behind the text
//! the sum of its bytes as two hexadecimal digits.

use vstd::prelude::*;
use vstd::string::StringSliceAdditionalSpecFns;
use crate::error::{SerializationError, SerializationResult};
use crate::text::{push_char, chars_of};
use crate::chord_binary::{HEX_DIGITS, hex_value, hex_digit_value};

verus! {

/// The hash after the first `upto` bytes: each byte is added to thirty-one
/// times the hash before it, in 32 bits.
pub open spec fn hash_steps(bytes: Seq<u8>, upto: nat) -> nat
    decreases upto,
{
    if upto == 0 || upto > bytes.len() {
        0
    } else {
        ((31 * hash_steps(bytes, (upto - 1) as nat) + bytes[upto - 1]) % 0x1_0000_0000) as nat
    }
}

/// The hash of a sequence of bytes: the hash after all of them, in 31 bits.
pub open spec fn hash_of(bytes: Seq<u8>) -> nat {
    hash_steps(bytes, bytes.len()) % 0x8000_0000
}

/// A number turned left by five bits, in 32 bits.
pub open spec fn turned(x: u32) -> u32 {
    ((x * 32) % 0x1_0000_0000 + x / 0x800_0000) as u32
}

/// The hash of a text, below 2^31.
pub fn fast_hash(data: &str) -> (h: u32)
    ensures
        h == hash_of(data.spec_bytes()),
        h < 0x8000_0000,
{
    let bytes = data.as_bytes();
    let mut hash: u64 = 0;
    let mut i: usize = 0;
    while i < bytes.len()
        invariant
            i <= bytes@.len(),
            hash == hash_steps(bytes@, i as nat),
            hash < 0x1_0000_0000,
        decreases bytes@.len() - i,
    {
        hash = (31 * hash + bytes[i] as u64) % 0x1_0000_0000;
        i = i + 1;
    }
    (hash % 0x8000_0000) as u32
}

/// The hash of a hash and a text: the hash turned left by five bits, crossed
/// with the hash of the text, in 31 bits.
pub fn fold_hash(existing_hash: u32, data: &str) -> (h: u32)
    ensures
        h == (turned(existing_hash) ^ (hash_of(data.spec_bytes()) as u32)) & 0x7FFF_FFFF,
        h < 0x8000_0000,
{
    let new_hash = fast_hash(data);
    let rotated: u32 = (((existing_hash as u64) * 32) % 0x1_0000_0000 + (existing_hash as u64)
        / 0x800_0000) as u32;
    let combined = rotated ^ new_hash;
    let h = combined & 0x7FFF_FFFF;
    assert(h < 0x8000_0000) by (bit_vector)
        requires
            h == combined & 0x7FFF_FFFFu32,
    ;
    h
}

/// Two to the power `i`, for `i` up to 12.
pub open spec fn weight_of(i: int) -> int
    decreases i,
{
    if i <= 0 {
        1
    } else {
        2 * weight_of(i - 1)
    }
}

/// Whether the flag at `i` is set in a pattern.
pub open spec fn flag_at(pattern: u16, i: int) -> bool {
    (pattern as int / weight_of(i)) % 2 == 1
}

/// The pattern of twelve flags.
pub open spec fn pattern_of(flags: Seq<bool>, upto: nat) -> int
    decreases upto,
{
    if upto == 0 || upto > flags.len() {
        0
    } else {
        pattern_of(flags, (upto - 1) as nat) + if flags[upto - 1] {
            weight_of(upto - 1)
        } else {
            0
        }
    }
}

/// The byte of a run: its length, and 128 more where the flags are set.
pub open spec fn run_byte(set: bool, length: int) -> u8 {
    if set {
        (128 + length) as u8
    } else {
        length as u8
    }
}

/// The runs of the flags from `i` on, behind a run of `length` flags that
/// are `set`.
pub open spec fn runs_from(pattern: u16, i: int, set: bool, length: int) -> Seq<u8>
    decreases 12 - i,
{
    if i >= 12 || i < 0 {
        seq![run_byte(set, length)]
    } else if flag_at(pattern, i) == set {
        runs_from(pattern, i + 1, set, length + 1)
    } else {
        seq![run_byte(set, length)] + runs_from(pattern, i + 1, !set, 1)
    }
}

/// The runs of the twelve flags of a pattern.
pub open spec fn runs_of(pattern: u16) -> Seq<u8> {
    runs_from(pattern, 1, flag_at(pattern, 0), 1)
}

/// The runs of the twelve flags of a pattern.
pub fn compress_bit_pattern(pattern: u16) -> (r: Vec<u8>)
    ensures
        r@ == runs_of(pattern),
{
    let mut result: Vec<u8> = Vec::new();
    let mut current = pattern % 2 == 1;
    let mut length: u8 = 1;
    let mut weight: u16 = 2;
    let mut i: usize = 1;
    assert(weight_of(0) == 1);
    assert(weight_of(1) == 2) by {
        reveal_with_fuel(weight_of, 2);
    }
    while i < 12
        invariant
            1 <= i <= 12,
            1 <= length <= i,
            weight == weight_of(i as int),
            1 <= weight <= 4096,
            runs_of(pattern) == result@ + runs_from(pattern, i as int, current, length as int),
        decreases 12 - i,
    {
        let bit = (pattern / weight) % 2 == 1;
        assert(bit == flag_at(pattern, i as int));
        if bit == current {
            length = length + 1;
        } else {
            let ghost before = result@;
            result.push(if current {
                128 + length
            } else {
                length
            });
            assert(result@ + runs_from(pattern, i + 1, bit, 1) =~= before + (seq![
                run_byte(current, length as int),
            ] + runs_from(pattern, i + 1, !current, 1)));
            current = bit;
            length = 1;
        }
        proof {
            assert(weight_of(i + 1) == 2 * weight_of(i as int));
            lemma_weight_bound(i as int);
        }
        if i < 11 {
            weight = weight * 2;
        } else {
            weight = 4096;
            proof {
                lemma_weight_12();
            }
        }
        i = i + 1;
    }
    let ghost before = result@;
    result.push(if current {
        128 + length
    } else {
        length
    });
    assert(result@ =~= before + seq![run_byte(current, length as int)]);
    result
}

/// The weights up to the twelfth are the powers of two up to 4096.
pub(crate) proof fn lemma_weight_bound(i: int)
    requires
        0 <= i <= 12,
    ensures
        1 <= weight_of(i) <= 4096,
        i < 12 ==> weight_of(i) <= 2048,
    decreases i,
{
    if i > 0 {
        lemma_weight_bound(i - 1);
    }
    lemma_weight_12();
    if i < 12 {
        lemma_weight_step(i);
    }
}

/// The twelfth weight is 4096.
pub(crate) proof fn lemma_weight_12()
    ensures
        weight_of(12) == 4096,
{
    reveal_with_fuel(weight_of, 13);
}

/// The weights grow.
proof fn lemma_weight_step(i: int)
    requires
        0 <= i < 12,
    ensures
        weight_of(i) <= 2048,
        weight_of(i) >= 1,
    decreases 12 - i,
{
    if i == 11 {
        lemma_weight_12();
        assert(weight_of(12) == 2 * weight_of(11));
    } else {
        lemma_weight_step(i + 1);
        assert(weight_of(i + 1) == 2 * weight_of(i));
    }
}

/// A pattern with the flags from `position` on set for a run of `length`,
/// as far as the twelve flags go.
pub open spec fn with_run(pattern: int, position: int, length: int) -> int
    decreases length,
{
    if length <= 0 {
        pattern
    } else if position < 12 {
        with_run(pattern + weight_of(position), position + 1, length - 1)
    } else {
        pattern
    }
}

/// The pattern that the runs from `at` on spell, behind the flags before
/// `position`: a run of length zero counts for nothing, and runs behind the
/// twelfth flag are not looked at.
pub open spec fn runs_pattern(runs: Seq<u8>, at: int, pattern: int, position: int) -> int
    decreases runs.len() - at,
{
    if at < 0 || at >= runs.len() || position >= 12 {
        pattern
    } else {
        let length = runs[at] % 128;
        if runs[at] >= 128 {
            runs_pattern(runs, at + 1, with_run(pattern, position, length as int), position + length)
        } else {
            runs_pattern(runs, at + 1, pattern, position + length)
        }
    }
}

/// The weights do not fall.
proof fn lemma_weight_monotone(a: int, b: int)
    requires
        0 <= a <= b <= 12,
    ensures
        weight_of(a) <= weight_of(b),
    decreases b - a,
{
    if a < b {
        lemma_weight_monotone(a, b - 1);
        lemma_weight_bound(b - 1);
        assert(weight_of(b) == 2 * weight_of(b - 1));
    }
}

/// Setting a run of flags from a position on keeps the pattern below the
/// weight of the position behind the run.
proof fn lemma_with_run(pattern: int, position: int, length: int)
    requires
        0 <= position <= 12,
        0 <= length,
        0 <= pattern < weight_of(position),
    ensures
        0 <= with_run(pattern, position, length) < weight_of(
            if position + length < 12 {
                position + length
            } else {
                12
            },
        ),
    decreases length,
{
    if length > 0 && position < 12 {
        assert(weight_of(position + 1) == 2 * weight_of(position));
        lemma_with_run(pattern + weight_of(position), position + 1, length - 1);
    }
}

/// The pattern that a list of runs spells.
pub fn decompress_bit_pattern(compressed: &[u8]) -> (r: SerializationResult<u16>)
    ensures
        r matches Ok(p) && p == runs_pattern(compressed@, 0, 0, 0),
{
    let mut pattern: u16 = 0;
    let mut position: usize = 0;
    let mut at: usize = 0;
    assert(weight_of(0) == 1);
    while at < compressed.len() && position < 12
        invariant
            at <= compressed@.len(),
            position <= 12 + 127,
            0 <= pattern < weight_of(if position < 12 {
                position as int
            } else {
                12
            }),
            runs_pattern(compressed@, 0, 0, 0) == runs_pattern(
                compressed@,
                at as int,
                pattern as int,
                position as int,
            ),
        decreases compressed@.len() - at,
    {
        let byte = compressed[at];
        let length = byte % 128;
        if byte >= 128 {
            let ghost start = pattern as int;
            let ghost from = position as int;
            let mut k: u8 = 0;
            let mut weight: u16 = weight_at(position);
            let mut p: usize = position;
            while k < length
                invariant
                    k <= length,
                    from < 12,
                    p == from + k,
                    weight == weight_of(if p < 12 {
                        p as int
                    } else {
                        12
                    }),
                    0 <= pattern < weight_of(if p < 12 {
                        p as int
                    } else {
                        12
                    }),
                    with_run(start, from, length as int) == with_run(
                        pattern as int,
                        p as int,
                        length - k,
                    ),
                decreases length - k,
            {
                if p < 12 {
                    proof {
                        lemma_weight_bound(p as int);
                        lemma_weight_12();
                        assert(weight_of(p + 1) == 2 * weight_of(p as int));
                    }
                    pattern = pattern + weight;
                    if p < 11 {
                        weight = weight * 2;
                    } else {
                        weight = 4096;
                    }
                }
                p = p + 1;
                k = k + 1;
            }
        }
        proof {
            let next = position + length;
            lemma_weight_monotone(position as int, if next < 12 {
                next
            } else {
                12
            });
        }
        position = position + length as usize;
        at = at + 1;
    }
    proof {
        lemma_weight_12();
    }
    Ok(pattern)
}

/// Two to the power `i`, for `i` below 12.
fn weight_at(i: usize) -> (w: u16)
    requires
        i < 12,
    ensures
        w == weight_of(i as int),
        1 <= w <= 2048,
{
    let mut w: u16 = 1;
    let mut k: usize = 0;
    assert(weight_of(0) == 1);
    while k < i
        invariant
            k <= i < 12,
            w == weight_of(k as int),
            1 <= w <= 2048,
        decreases i - k,
    {
        proof {
            assert(weight_of(k + 1) == 2 * weight_of(k as int));
            lemma_weight_step((k + 1) as int);
        }
        w = w * 2;
        k = k + 1;
    }
    w
}

/// The alphabet of the text form: capitals, small letters, digits, `+`, `/`.
pub const ALPHABET: [char; 64] = [
    'A',
    'B',
    'C',
    'D',
    'E',
    'F',
    'G',
    'H',
    'I',
    'J',
    'K',
    'L',
    'M',
    'N',
    'O',
    'P',
    'Q',
    'R',
    'S',
    'T',
    'U',
    'V',
    'W',
    'X',
    'Y',
    'Z',
    'a',
    'b',
    'c',
    'd',
    'e',
    'f',
    'g',
    'h',
    'i',
    'j',
    'k',
    'l',
    'm',
    'n',
    'o',
    'p',
    'q',
    'r',
    's',
    't',
    'u',
    'v',
    'w',
    'x',
    'y',
    'z',
    '0',
    '1',
    '2',
    '3',
    '4',
    '5',
    '6',
    '7',
    '8',
    '9',
    '+',
    '/',
];

/// The byte at `at`, or 0 behind the end.
pub open spec fn byte_or_zero(data: Seq<u8>, at: int) -> int {
    if 0 <= at < data.len() {
        data[at] as int
    } else {
        0
    }
}

/// The four characters for the three bytes from `at` on: six bits for each
/// character, and `=` in place of a character that holds no bits of the data.
pub open spec fn group_text(data: Seq<u8>, at: int) -> Seq<char> {
    let combined = byte_or_zero(data, at) * 0x1_0000 + byte_or_zero(data, at + 1) * 0x100
        + byte_or_zero(data, at + 2);
    seq![
        ALPHABET@[(combined / 0x4_0000) % 64],
        ALPHABET@[(combined / 0x1000) % 64],
        if at + 1 < data.len() {
            ALPHABET@[(combined / 64) % 64]
        } else {
            '='
        },
        if at + 2 < data.len() {
            ALPHABET@[combined % 64]
        } else {
            '='
        },
    ]
}

/// The text of the first `groups` groups of three bytes.
pub open spec fn groups_text(data: Seq<u8>, groups: nat) -> Seq<char>
    decreases groups,
{
    if groups == 0 {
        Seq::empty()
    } else {
        groups_text(data, (groups - 1) as nat) + group_text(data, 3 * (groups - 1))
    }
}

/// The number of groups of `size` that hold `n` items.
pub open spec fn group_count(n: int, size: int) -> nat {
    ((n + size - 1) / size) as nat
}

/// The text form of a list of bytes.
pub open spec fn alphabet_text(data: Seq<u8>) -> Seq<char> {
    groups_text(data, group_count(data.len() as int, 3))
}

/// The text form of a list of bytes.
pub fn base64_like_encode(data: &[u8]) -> (r: String)
    ensures
        r@ == alphabet_text(data@),
{
    let mut result = String::new();
    let n = data.len();
    let mut at: usize = 0;
    let mut groups: usize = 0;
    while at < n
        invariant
            n == data@.len(),
            at == 3 * groups,
            at <= n + 2,
            result@ == groups_text(data@, groups as nat),
        decreases n + 3 - at,
    {
        let b1 = data[at] as u32;
        let b2: u32 = if at + 1 < n {
            data[at + 1] as u32
        } else {
            0
        };
        let b3: u32 = if n >= 2 && at < n - 2 {
            data[at + 2] as u32
        } else {
            0
        };
        let combined: u32 = b1 * 0x1_0000 + b2 * 0x100 + b3;
        let ghost before = result@;
        push_char(&mut result, ALPHABET[((combined / 0x4_0000) % 64) as usize]);
        push_char(&mut result, ALPHABET[((combined / 0x1000) % 64) as usize]);
        if at + 1 < n {
            push_char(&mut result, ALPHABET[((combined / 64) % 64) as usize]);
        } else {
            push_char(&mut result, '=');
        }
        if n >= 2 && at < n - 2 {
            push_char(&mut result, ALPHABET[(combined % 64) as usize]);
        } else {
            push_char(&mut result, '=');
        }
        assert(result@ =~= before + group_text(data@, at as int));
        if at > usize::MAX - 3 {
            // the data cannot be that long
            assert(n + 2 >= at);
            at = n;
            groups = groups + 1;
            assert(false);
        } else {
            at = at + 3;
            groups = groups + 1;
        }
    }
    assert(groups == group_count(n as int, 3));
    result
}

/// The value of a character of the alphabet; 0 for any other character.
pub open spec fn alphabet_value(c: char) -> int {
    if 'A' <= c <= 'Z' {
        c as u32 - 'A' as u32
    } else if 'a' <= c <= 'z' {
        c as u32 - 'a' as u32 + 26
    } else if '0' <= c <= '9' {
        c as u32 - '0' as u32 + 52
    } else if c == '+' {
        62
    } else if c == '/' {
        63
    } else {
        0
    }
}

/// The six bits of the character at `at`; none for `=`, and none behind the end.
pub open spec fn sextet(text: Seq<char>, at: int) -> int {
    if 0 <= at < text.len() && text[at] != '=' {
        alphabet_value(text[at])
    } else {
        0
    }
}

/// Whether the character at `at` holds bits of the data.
pub open spec fn holds_bits(text: Seq<char>, at: int) -> bool {
    0 <= at < text.len() && text[at] != '='
}

/// The bytes for the four characters from `at` on: one byte, one more if the
/// third character holds bits, one more if the fourth does. The first two
/// characters count with their values even where they are `=`.
pub open spec fn group_bytes(text: Seq<char>, at: int) -> Seq<u8> {
    let combined = alphabet_value(text[at]) * 0x4_0000 + alphabet_value(text[at + 1]) * 0x1000
        + sextet(text, at + 2) * 64 + sextet(text, at + 3);
    seq![(combined / 0x1_0000) as u8] + (if holds_bits(text, at + 2) {
        seq![((combined / 0x100) % 0x100) as u8]
    } else {
        Seq::empty()
    }) + (if holds_bits(text, at + 3) {
        seq![(combined % 0x100) as u8]
    } else {
        Seq::empty()
    })
}

/// The bytes for the first `groups` groups of four characters.
pub open spec fn groups_bytes(text: Seq<char>, groups: nat) -> Seq<u8>
    decreases groups,
{
    if groups == 0 {
        Seq::empty()
    } else {
        groups_bytes(text, (groups - 1) as nat) + group_bytes(text, 4 * (groups - 1))
    }
}

/// The groups of four characters that are read: every group but a last one
/// of a single character.
pub open spec fn readable_groups(n: int) -> nat {
    if n % 4 == 1 {
        (n / 4) as nat
    } else {
        group_count(n, 4)
    }
}

/// The bytes that a text in the alphabet spells.
pub open spec fn alphabet_bytes(text: Seq<char>) -> Seq<u8> {
    groups_bytes(text, readable_groups(text.len() as int))
}

/// The value of a character of the alphabet.
fn value_of(c: char) -> (v: u32)
    ensures
        v == alphabet_value(c),
        v < 64,
{
    let n = c as u32;
    if n >= 65 && n <= 90 {
        n - 65
    } else if n >= 97 && n <= 122 {
        n - 97 + 26
    } else if n >= 48 && n <= 57 {
        n - 48 + 52
    } else if n == 43 {
        62
    } else if n == 47 {
        63
    } else {
        0
    }
}

/// The bytes that a text in the alphabet spells. A character outside the
/// alphabet counts as `A`.
pub fn base64_like_decode(encoded: &str) -> (r: SerializationResult<Vec<u8>>)
    ensures
        r matches Ok(v) && v@ == alphabet_bytes(encoded@),
{
    let chars = chars_of(encoded);
    Ok(decode_chars(&chars))
}

/// The bytes that a list of characters of the alphabet spells.
fn decode_chars(chars: &Vec<char>) -> (v: Vec<u8>)
    ensures
        v@ == alphabet_bytes(chars@),
{
    let n = chars.len();
    let mut result: Vec<u8> = Vec::new();
    let mut at: usize = 0;
    let mut groups: usize = 0;
    while at < n && n - at >= 2
        invariant
            n == chars@.len(),
            at == 4 * groups,
            at <= n,
            result@ == groups_bytes(chars@, groups as nat),
        decreases n + 4 - at,
    {
        let c1 = value_of(chars[at]);
        let c2 = value_of(chars[at + 1]);
        let third = n - at > 2 && chars[at + 2] != '=';
        let fourth = n - at > 3 && chars[at + 3] != '=';
        let c3: u32 = if third {
            value_of(chars[at + 2])
        } else {
            0
        };
        let c4: u32 = if fourth {
            value_of(chars[at + 3])
        } else {
            0
        };
        let combined: u32 = c1 * 0x4_0000 + c2 * 0x1000 + c3 * 64 + c4;
        let ghost before = result@;
        result.push((combined / 0x1_0000) as u8);
        if third {
            result.push(((combined / 0x100) % 0x100) as u8);
        }
        if fourth {
            result.push((combined % 0x100) as u8);
        }
        assert(result@ =~= before + group_bytes(chars@, at as int));
        if n - at <= 4 {
            groups = groups + 1;
            assert(groups == readable_groups(n as int));
            return result;
        }
        at = at + 4;
        groups = groups + 1;
    }
    assert(groups == readable_groups(n as int));
    result
}

/// The sum of the first `upto` bytes, in eight bits.
pub open spec fn checksum_of(bytes: Seq<u8>, upto: nat) -> int
    decreases upto,
{
    if upto == 0 || upto > bytes.len() {
        0
    } else {
        (checksum_of(bytes, (upto - 1) as nat) + bytes[upto - 1]) % 256
    }
}

/// The sum of the bytes of a text, in eight bits.
pub fn calculate_checksum(data: &str) -> (c: u8)
    ensures
        c == checksum_of(data.spec_bytes(), data.spec_bytes().len()),
{
    let bytes = data.as_bytes();
    let mut sum: u32 = 0;
    let mut i: usize = 0;
    while i < bytes.len()
        invariant
            i <= bytes@.len(),
            sum == checksum_of(bytes@, i as nat),
            sum < 256,
        decreases bytes@.len() - i,
    {
        sum = (sum + bytes[i] as u32) % 256;
        i = i + 1;
    }
    sum as u8
}

/// The pattern of twelve flags.
fn pattern_from(fingerprint: &[bool; 12]) -> (p: u16)
    ensures
        p == pattern_of(fingerprint@, 12),
        forall|i: int| 0 <= i < 12 ==> flag_at(p, i) == fingerprint@[i],
{
    let mut p: u16 = 0;
    let mut i: usize = 0;
    assert(weight_of(0) == 1);
    while i < 12
        invariant
            i <= 12,
            p == pattern_of(fingerprint@, i as nat),
            0 <= p < weight_of(i as int),
            forall|k: int| 0 <= k < i ==> flag_at(p, k) == fingerprint@[k],
        decreases 12 - i,
    {
        let ghost before = p;
        let w = weight_at(i);
        proof {
            assert(weight_of(i + 1) == 2 * weight_of(i as int));
            lemma_weight_bound(i as int);
        }
        if fingerprint[i] {
            p = p + w;
        }
        proof {
            assert forall|k: int| 0 <= k < i + 1 implies flag_at(p, k) == fingerprint@[k] by {
                lemma_flag_kept(before as int, i as int, k, fingerprint@[i as int]);
                if k < i {
                    assert(flag_at(before, k) == fingerprint@[k]);
                }
            }
        }
        i = i + 1;
    }
    proof {
        lemma_weight_12();
    }
    p
}

/// Adding the weight of a position to a pattern below it sets the flag at
/// the position and keeps the flags before it.
pub(crate) proof fn lemma_flag_kept(pattern: int, i: int, k: int, set: bool)
    requires
        0 <= k <= i < 12,
        0 <= pattern < weight_of(i),
    ensures
        set ==> ((pattern + weight_of(i)) / weight_of(k)) % 2 == (if k == i {
            1int
        } else {
            (pattern / weight_of(k)) % 2
        }),
        k == i ==> (pattern / weight_of(k)) % 2 == 0,
    decreases i - k,
{
    lemma_weight_bound(i);
    lemma_weight_bound(k);
    let w = weight_of(k);
    if k == i {
        vstd::arithmetic::div_mod::lemma_fundamental_div_mod_converse(pattern + w, w, 1, pattern);
        vstd::arithmetic::div_mod::lemma_fundamental_div_mod_converse(pattern, w, 0, pattern);
    } else if set {
        // the weight of i is an even multiple of the weight of k
        lemma_weight_multiple(k, i);
        let m = weight_of(i) / w;
        assert(weight_of(i) == w * m && m % 2 == 0);
        let q = pattern / w;
        let r = pattern % w;
        vstd::arithmetic::div_mod::lemma_fundamental_div_mod(pattern, w);
        vstd::arithmetic::div_mod::lemma_mod_bound(pattern, w);
        assert(pattern + weight_of(i) == (q + m) * w + r) by (nonlinear_arith)
            requires
                pattern == w * q + r,
                weight_of(i) == w * m,
        ;
        vstd::arithmetic::div_mod::lemma_fundamental_div_mod_converse(
            pattern + weight_of(i),
            w,
            q + m,
            r,
        );
    }
}

/// A higher weight is an even multiple of a lower one.
proof fn lemma_weight_multiple(k: int, i: int)
    requires
        0 <= k < i <= 12,
    ensures
        weight_of(i) % weight_of(k) == 0,
        (weight_of(i) / weight_of(k)) % 2 == 0,
        weight_of(i) == weight_of(k) * (weight_of(i) / weight_of(k)),
    decreases i - k,
{
    lemma_weight_bound(k);
    let w = weight_of(k);
    assert(weight_of(i) == 2 * weight_of(i - 1));
    if i - 1 == k {
        vstd::arithmetic::div_mod::lemma_fundamental_div_mod_converse(2 * w, w, 2, 0);
    } else {
        lemma_weight_multiple(k, i - 1);
        let m = weight_of(i - 1) / w;
        assert(weight_of(i) == w * (2 * m)) by (nonlinear_arith)
            requires
                weight_of(i) == 2 * weight_of(i - 1),
                weight_of(i - 1) == w * m,
        ;
        vstd::arithmetic::div_mod::lemma_fundamental_div_mod_converse(weight_of(i), w, 2 * m, 0);
    }
}

/// Two hexadecimal digits for a byte.
pub open spec fn two_digits(b: u8) -> Seq<char> {
    seq![HEX_DIGITS@[b as int / 16], HEX_DIGITS@[b as int % 16]]
}

/// The text form of a pattern of twelve flags: its runs in the alphabet,
/// and the sum of the bytes of that text as two hexadecimal digits.
pub open spec fn scale40_text(pattern: u16) -> Seq<char> {
    let body = alphabet_text(runs_of(pattern));
    body + two_digits(
        checksum_of(vstd::utf8::encode_utf8(body), vstd::utf8::encode_utf8(body).len()) as u8,
    )
}

/// The text form of a fingerprint of twelve flags.
pub fn scale40_encode(fingerprint: &[bool; 12]) -> (r: SerializationResult<String>)
    ensures
        r matches Ok(text) && text@ == scale40_text(pattern_of(fingerprint@, 12) as u16),
{
    let pattern = pattern_from(fingerprint);
    let runs = compress_bit_pattern(pattern);
    let mut text = base64_like_encode(runs.as_slice());
    let checksum = calculate_checksum(text.as_str());
    push_char(&mut text, HEX_DIGITS[(checksum / 16) as usize]);
    push_char(&mut text, HEX_DIGITS[(checksum % 16) as usize]);
    assert(text@ =~= scale40_text(pattern));
    Ok(text)
}

/// The flags of a pattern.
pub open spec fn flags_of(pattern: u16) -> Seq<bool> {
    Seq::new(12, |i: int| flag_at(pattern, i))
}

/// The fingerprint that a text spells: `None` where the text has fewer than
/// three characters, where its last two characters are no hexadecimal
/// number (a plus sign may stand for the first digit), and where they are
/// not the sum of the bytes of the text before them.
pub open spec fn scale40_parsed(text: Seq<char>) -> Option<Seq<bool>> {
    if text.len() < 3 {
        None
    } else {
        let body = text.subrange(0, text.len() - 2);
        let high = if text[text.len() - 2] == '+' {
            Some(0u8)
        } else {
            hex_value(text[text.len() - 2])
        };
        let low = hex_value(text[text.len() - 1]);
        if high is None || low is None {
            None
        } else if checksum_of(vstd::utf8::encode_utf8(body), vstd::utf8::encode_utf8(body).len())
            != 16 * high->0 + low->0 {
            None
        } else {
            Some(flags_of(runs_pattern(alphabet_bytes(body), 0, 0, 0) as u16))
        }
    }
}

/// The fingerprint that a text spells.
pub fn scale40_decode(encoded: &str) -> (r: SerializationResult<[bool; 12]>)
    ensures
        r is Ok <==> scale40_parsed(encoded@) is Some,
        r matches Ok(flags) ==> Some(flags@) == scale40_parsed(encoded@),
        r matches Err(e) ==> e is InvalidFormat,
{
    let chars = chars_of(encoded);
    let n = chars.len();
    if n < 3 {
        return Err(
            SerializationError::InvalidFormat {
                message: String::from_str("Scale encoding too short"),
            },
        );
    }
    let high = if chars[n - 2] == '+' {
        Some(0u8)
    } else {
        hex_digit_value(chars[n - 2])
    };
    let low = hex_digit_value(chars[n - 1]);
    let (high, low) = match (high, low) {
        (Some(h), Some(l)) => (h, l),
        _ => {
            return Err(
                SerializationError::InvalidFormat {
                    message: String::from_str("Invalid checksum format"),
                },
            );
        },
    };
    let mut body: Vec<char> = Vec::new();
    let mut i: usize = 0;
    while i < n - 2
        invariant
            i <= n - 2,
            n == chars@.len(),
            body@ == chars@.subrange(0, i as int),
        decreases n - 2 - i,
    {
        body.push(chars[i]);
        i = i + 1;
        assert(body@ =~= chars@.subrange(0, i as int));
    }
    let body_text = crate::text::string_of(&body);
    let actual = calculate_checksum(body_text.as_str());
    if actual != 16 * high + low {
        return Err(
            SerializationError::InvalidFormat { message: String::from_str("Checksum mismatch") },
        );
    }
    let runs = decode_chars(&body);
    let pattern = match decompress_bit_pattern(runs.as_slice()) {
        Ok(p) => p,
        Err(e) => {
            return Err(e);
        },
    };
    let mut flags: [bool; 12] = [
        false,
        false,
        false,
        false,
        false,
        false,
        false,
        false,
        false,
        false,
        false,
        false,
    ];
    let mut k: usize = 0;
    while k < 12
        invariant
            k <= 12,
            forall|j: int| 0 <= j < k ==> flags@[j] == flag_at(pattern, j),
        decreases 12 - k,
    {
        let w = weight_at(k);
        flags[k] = (pattern / w) % 2 == 1;
        k = k + 1;
    }
    assert(flags@ =~= flags_of(pattern));
    Ok(flags)
}

} // verus!
