//! The compact text form of a fingerprint can be read back.

use vstd::prelude::*;
use vstd::arithmetic::div_mod::{
    lemma_fundamental_div_mod, lemma_fundamental_div_mod_converse, lemma_mod_bound,
};
use crate::hash::{
    weight_of, flag_at, run_byte, runs_from, runs_of, with_run, runs_pattern, lemma_weight_bound,
    lemma_weight_12, ALPHABET, alphabet_value, alphabet_text, alphabet_bytes, group_text,
    groups_text, group_count, group_bytes, groups_bytes, readable_groups, byte_or_zero, sextet,
    holds_bits, pattern_of, flags_of, checksum_of, two_digits, scale40_text, scale40_parsed,
    lemma_flag_kept,
};
use crate::chord_binary::{HEX_DIGITS, hex_value};

verus! {

/// The flags of a pattern below `k`, as a number.
pub open spec fn low_flags(pattern: u16, k: int) -> int {
    pattern as int % weight_of(k)
}

/// Whether the flags from `from` up to `to` all are `set`.
pub open spec fn all_flags(pattern: u16, from: int, to: int, set: bool) -> bool {
    forall|k: int| from <= k < to ==> flag_at(pattern, k) == set
}

/// The flags below `k + 1` are the flags below `k` and the flag at `k`.
proof fn lemma_low_step(pattern: u16, k: int)
    requires
        0 <= k < 12,
    ensures
        low_flags(pattern, k + 1) == low_flags(pattern, k) + (if flag_at(pattern, k) {
            weight_of(k)
        } else {
            0
        }),
        0 <= low_flags(pattern, k) < weight_of(k),
{
    let p = pattern as int;
    let w = weight_of(k);
    lemma_weight_bound(k);
    assert(weight_of(k + 1) == 2 * w);
    let q = p / w;
    let r = p % w;
    lemma_fundamental_div_mod(p, w);
    lemma_mod_bound(p, w);
    let half = q / 2;
    let bit = q % 2;
    assert(p == half * (2 * w) + (bit * w + r)) by (nonlinear_arith)
        requires
            p == w * q + r,
            q == 2 * half + bit,
    ;
    assert(0 <= bit * w + r < 2 * w) by (nonlinear_arith)
        requires
            0 <= bit <= 1,
            0 <= r < w,
    ;
    lemma_fundamental_div_mod_converse(p, 2 * w, half, bit * w + r);
    assert(bit * w == (if bit == 1 {
        w
    } else {
        0
    })) by (nonlinear_arith)
        requires
            0 <= bit <= 1,
    ;
}

/// A run of set flags, put behind the flags below it, gives the flags
/// below its end.
proof fn lemma_run_set(pattern: u16, position: int, length: int)
    requires
        0 <= position,
        0 <= length,
        position + length <= 12,
        all_flags(pattern, position, position + length, true),
    ensures
        with_run(low_flags(pattern, position), position, length) == low_flags(
            pattern,
            position + length,
        ),
    decreases length,
{
    if length > 0 {
        assert(flag_at(pattern, position));
        lemma_low_step(pattern, position);
        lemma_run_set(pattern, position + 1, length - 1);
    }
}

/// A run of clear flags adds nothing to the flags below it.
proof fn lemma_run_clear(pattern: u16, position: int, length: int)
    requires
        0 <= position,
        0 <= length,
        position + length <= 12,
        all_flags(pattern, position, position + length, false),
    ensures
        low_flags(pattern, position + length) == low_flags(pattern, position),
    decreases length,
{
    if length > 0 {
        assert(!flag_at(pattern, position + length - 1));
        lemma_low_step(pattern, position + length - 1);
        lemma_run_clear(pattern, position, length - 1);
    }
}

/// What is read from the runs of a pattern, from a run on that is still
/// open, are the twelve flags of the pattern.
proof fn lemma_runs_read(pattern: u16, before: Seq<u8>, i: int, set: bool, length: int)
    requires
        1 <= i <= 12,
        1 <= length <= i,
        all_flags(pattern, i - length, i, set),
    ensures
        runs_pattern(
            before + runs_from(pattern, i, set, length),
            before.len() as int,
            low_flags(pattern, i - length),
            i - length,
        ) == low_flags(pattern, 12),
    decreases 12 - i,
{
    let position = i - length;
    let byte = run_byte(set, length);
    let held = low_flags(pattern, position);
    assert(byte % 128 == length && (byte >= 128) == set);
    if set {
        lemma_run_set(pattern, position, length);
    } else {
        lemma_run_clear(pattern, position, length);
    }
    let next = if set {
        with_run(held, position, length)
    } else {
        held
    };
    assert(next == low_flags(pattern, i));
    if i >= 12 {
        let runs = before + seq![byte];
        assert(runs_from(pattern, i, set, length) == seq![byte]);
        assert(runs[before.len() as int] == byte);
        assert(runs_pattern(runs, before.len() as int + 1, next, position + length) == next);
    } else if flag_at(pattern, i) == set {
        assert(all_flags(pattern, i + 1 - (length + 1), i + 1, set));
        lemma_runs_read(pattern, before, i + 1, set, length + 1);
    } else {
        let rest = runs_from(pattern, i + 1, !set, 1);
        let runs = before + (seq![byte] + rest);
        assert(runs_from(pattern, i, set, length) == seq![byte] + rest);
        assert(runs[before.len() as int] == byte);
        assert(runs =~= before.push(byte) + rest);
        assert(all_flags(pattern, i, i + 1, !set));
        lemma_runs_read(pattern, before.push(byte), i + 1, !set, 1);
    }
}

/// The runs of a pattern spell its twelve flags.
pub proof fn lemma_runs_round_trip(pattern: u16)
    ensures
        runs_pattern(runs_of(pattern), 0, 0, 0) == pattern % 4096,
{
    assert(weight_of(0) == 1);
    lemma_weight_12();
    let empty = Seq::<u8>::empty();
    assert(all_flags(pattern, 0, 1, flag_at(pattern, 0)));
    lemma_runs_read(pattern, empty, 1, flag_at(pattern, 0), 1);
    assert(empty + runs_of(pattern) =~= runs_of(pattern));
}

/// Each character of the alphabet has its place as its value, and none is
/// the sign that fills a group.
pub proof fn lemma_alphabet_values()
    ensures
        forall|v: int|
            0 <= v < 64 ==> alphabet_value(#[trigger] ALPHABET@[v]) == v && ALPHABET@[v] != '=',
{
    assert(
        ALPHABET@[0] == 'A' && ALPHABET@[1] == 'B' && ALPHABET@[2] == 'C' && ALPHABET@[3] ==
            'D' && ALPHABET@[4] == 'E' && ALPHABET@[5] == 'F' && ALPHABET@[6] == 'G' &&
            ALPHABET@[7] == 'H' && ALPHABET@[8] == 'I' && ALPHABET@[9] == 'J' && ALPHABET@[10]
            == 'K' && ALPHABET@[11] == 'L' && ALPHABET@[12] == 'M' && ALPHABET@[13] == 'N' &&
            ALPHABET@[14] == 'O' && ALPHABET@[15] == 'P' && ALPHABET@[16] == 'Q' &&
            ALPHABET@[17] == 'R' && ALPHABET@[18] == 'S' && ALPHABET@[19] == 'T' &&
            ALPHABET@[20] == 'U' && ALPHABET@[21] == 'V' && ALPHABET@[22] == 'W' &&
            ALPHABET@[23] == 'X' && ALPHABET@[24] == 'Y' && ALPHABET@[25] == 'Z' &&
            ALPHABET@[26] == 'a' && ALPHABET@[27] == 'b' && ALPHABET@[28] == 'c' &&
            ALPHABET@[29] == 'd' && ALPHABET@[30] == 'e' && ALPHABET@[31] == 'f' &&
            ALPHABET@[32] == 'g' && ALPHABET@[33] == 'h' && ALPHABET@[34] == 'i' &&
            ALPHABET@[35] == 'j' && ALPHABET@[36] == 'k' && ALPHABET@[37] == 'l' &&
            ALPHABET@[38] == 'm' && ALPHABET@[39] == 'n' && ALPHABET@[40] == 'o' &&
            ALPHABET@[41] == 'p' && ALPHABET@[42] == 'q' && ALPHABET@[43] == 'r' &&
            ALPHABET@[44] == 's' && ALPHABET@[45] == 't' && ALPHABET@[46] == 'u' &&
            ALPHABET@[47] == 'v' && ALPHABET@[48] == 'w' && ALPHABET@[49] == 'x' &&
            ALPHABET@[50] == 'y' && ALPHABET@[51] == 'z' && ALPHABET@[52] == '0' &&
            ALPHABET@[53] == '1' && ALPHABET@[54] == '2' && ALPHABET@[55] == '3' &&
            ALPHABET@[56] == '4' && ALPHABET@[57] == '5' && ALPHABET@[58] == '6' &&
            ALPHABET@[59] == '7' && ALPHABET@[60] == '8' && ALPHABET@[61] == '9' &&
            ALPHABET@[62] == '+' && ALPHABET@[63] == '/'
    );
}

/// The character at place `j` of group `g` of a text.
pub open spec fn at_place(text: Seq<char>, g: int, j: int) -> char {
    text[4 * g + j]
}

/// The text of the groups has four characters for each group, and the
/// characters of a group are those of its three bytes.
proof fn lemma_groups_text(data: Seq<u8>, groups: nat)
    ensures
        groups_text(data, groups).len() == 4 * groups,
        forall|g: int, j: int|
            0 <= g < groups && 0 <= j < 4 ==> #[trigger] at_place(groups_text(data, groups), g, j)
                == group_text(data, 3 * g)[j],
    decreases groups,
{
    if groups > 0 {
        lemma_groups_text(data, (groups - 1) as nat);
        let before = groups_text(data, (groups - 1) as nat);
        let last = group_text(data, 3 * (groups - 1));
        assert forall|g: int, j: int| 0 <= g < groups && 0 <= j < 4 implies #[trigger] at_place(
            groups_text(data, groups),
            g,
            j,
        ) == group_text(data, 3 * g)[j] by {
            if g < groups - 1 {
                assert(at_place(before, g, j) == group_text(data, 3 * g)[j]);
                assert((before + last)[4 * g + j] == before[4 * g + j]);
            } else {
                assert((before + last)[4 * g + j] == last[j]);
            }
        }
    }
}

/// Three bytes side by side are read back one by one.
proof fn lemma_three_bytes(b1: int, b2: int, b3: int)
    requires
        0 <= b1 < 256,
        0 <= b2 < 256,
        0 <= b3 < 256,
    ensures
        (b1 * 0x1_0000 + b2 * 0x100 + b3) / 0x1_0000 == b1,
        ((b1 * 0x1_0000 + b2 * 0x100 + b3) / 0x100) % 0x100 == b2,
        (b1 * 0x1_0000 + b2 * 0x100 + b3) % 0x100 == b3,
{
    let c = b1 * 0x1_0000 + b2 * 0x100 + b3;
    let high = c / 0x100;
    assert(high == b1 * 0x100 + b2);
    assert(high % 0x100 == b2);
}

/// Twenty-four bits, cut into four times six bits, are put together again.
proof fn lemma_four_sextets(c: int)
    requires
        0 <= c < 0x100_0000,
    ensures
        ((c / 0x4_0000) % 64) * 0x4_0000 + ((c / 0x1000) % 64) * 0x1000 + ((c / 64) % 64) * 64 + c
            % 64 == c,
{
    let q1 = c / 64;
    let q2 = c / 0x1000;
    let q3 = c / 0x4_0000;
    assert(c == q1 * 64 + c % 64);
    assert(q2 == q1 / 64);
    assert(q1 == q2 * 64 + q1 % 64);
    assert(q3 == q2 / 64);
    assert(q2 == q3 * 64 + q2 % 64);
    assert(q3 % 64 == q3);
}

/// Bits that come from a byte that is zero are zero.
proof fn lemma_empty_sextets(b1: int, b2: int)
    requires
        0 <= b1 < 256,
        0 <= b2 < 256,
    ensures
        (b1 * 0x1_0000 + b2 * 0x100) % 64 == 0,
        ((b1 * 0x1_0000) / 64) % 64 == 0,
        (b1 * 0x1_0000) % 64 == 0,
{
    assert(b1 * 0x1_0000 + b2 * 0x100 == (b1 * 0x400 + b2 * 4) * 64);
    assert((b1 * 0x1_0000) / 64 == b1 * 0x400);
    assert(b1 * 0x400 == (b1 * 16) * 64);
}

/// The bytes of a group of four characters are the bytes that the
/// characters were made from.
proof fn lemma_group_read(data: Seq<u8>, text: Seq<char>, g: int)
    requires
        0 <= g,
        3 * g < data.len(),
        4 * g + 4 <= text.len(),
        forall|j: int| 0 <= j < 4 ==> #[trigger] at_place(text, g, j) == group_text(data, 3 * g)[j],
    ensures
        group_bytes(text, 4 * g) == data.subrange(
            3 * g,
            if 3 * g + 3 <= data.len() {
                3 * g + 3
            } else {
                data.len() as int
            },
        ),
{
    lemma_alphabet_values();
    let at = 3 * g;
    let b1 = byte_or_zero(data, at);
    let b2 = byte_or_zero(data, at + 1);
    let b3 = byte_or_zero(data, at + 2);
    let c = b1 * 0x1_0000 + b2 * 0x100 + b3;
    lemma_three_bytes(b1, b2, b3);
    lemma_four_sextets(c);
    lemma_empty_sextets(b1, b2);
    let t = group_text(data, at);
    assert(at_place(text, g, 0) == t[0]);
    assert(at_place(text, g, 1) == t[1]);
    assert(at_place(text, g, 2) == t[2]);
    assert(at_place(text, g, 3) == t[3]);
    assert(alphabet_value(text[4 * g]) == (c / 0x4_0000) % 64);
    assert(alphabet_value(text[4 * g + 1]) == (c / 0x1000) % 64);
    assert(holds_bits(text, 4 * g + 2) == (at + 1 < data.len()));
    assert(holds_bits(text, 4 * g + 3) == (at + 2 < data.len()));
    assert(sextet(text, 4 * g + 2) == (c / 64) % 64);
    assert(sextet(text, 4 * g + 3) == c % 64);
    let end = if at + 3 <= data.len() {
        at + 3
    } else {
        data.len() as int
    };
    assert(group_bytes(text, 4 * g) =~= data.subrange(at, end));
}

/// The bytes of the first groups of a text are the first bytes that the
/// text was made from.
proof fn lemma_groups_read(data: Seq<u8>, groups: nat)
    requires
        groups <= group_count(data.len() as int, 3),
    ensures
        groups_bytes(alphabet_text(data), groups) == data.subrange(
            0,
            if 3 * groups <= data.len() {
                3 * groups as int
            } else {
                data.len() as int
            },
        ),
    decreases groups,
{
    let text = alphabet_text(data);
    let all = group_count(data.len() as int, 3);
    lemma_groups_text(data, all);
    if groups == 0 {
        assert(data.subrange(0, 0) =~= Seq::<u8>::empty());
    } else {
        let g = groups - 1;
        lemma_groups_read(data, g as nat);
        lemma_group_read(data, text, g);
        let middle = 3 * g;
        let end = if 3 * groups <= data.len() {
            3 * groups as int
        } else {
            data.len() as int
        };
        assert(data.subrange(0, end) =~= data.subrange(0, middle) + data.subrange(middle, end));
    }
}

/// The text form of a list of bytes spells the bytes.
pub proof fn lemma_alphabet_round_trip(data: Seq<u8>)
    ensures
        alphabet_bytes(alphabet_text(data)) == data,
        alphabet_text(data).len() == 4 * group_count(data.len() as int, 3),
{
    let all = group_count(data.len() as int, 3);
    lemma_groups_text(data, all);
    lemma_groups_read(data, all);
    assert(readable_groups(4 * all as int) == all);
    assert(data.subrange(0, data.len() as int) =~= data);
}

/// The pattern of the first flags is below the weight behind them, and
/// each of its flags is the flag that it was made from.
proof fn lemma_pattern_flags(flags: Seq<bool>, upto: nat)
    requires
        upto <= flags.len(),
        upto <= 12,
    ensures
        0 <= pattern_of(flags, upto) < weight_of(upto as int),
        forall|k: int|
            0 <= k < upto ==> ((pattern_of(flags, upto) / #[trigger] weight_of(k)) % 2 == 1)
                == flags[k],
    decreases upto,
{
    if upto == 0 {
        assert(weight_of(0) == 1);
    } else {
        let i = upto - 1;
        lemma_pattern_flags(flags, i as nat);
        let before = pattern_of(flags, i as nat);
        lemma_weight_bound(i);
        assert(weight_of(upto as int) == 2 * weight_of(i));
        assert forall|k: int| 0 <= k < upto implies ((pattern_of(flags, upto) / #[trigger] weight_of(
            k,
        )) % 2 == 1) == flags[k] by {
            lemma_flag_kept(before, i, k, flags[i]);
        }
    }
}

/// A run is never empty, so a pattern has a run.
proof fn lemma_runs_exist(pattern: u16, i: int, set: bool, length: int)
    ensures
        runs_from(pattern, i, set, length).len() >= 1,
    decreases 12 - i,
{
    if 0 <= i < 12 {
        if flag_at(pattern, i) == set {
            lemma_runs_exist(pattern, i + 1, set, length + 1);
        }
    }
}

/// The sum of bytes in eight bits is a byte.
proof fn lemma_checksum_byte(bytes: Seq<u8>, upto: nat)
    ensures
        0 <= checksum_of(bytes, upto) < 256,
    decreases upto,
{
    if upto > 0 && upto <= bytes.len() {
        lemma_checksum_byte(bytes, (upto - 1) as nat);
    }
}

/// The two digits of a byte are read back as the byte.
proof fn lemma_two_digits(b: u8)
    ensures
        two_digits(b)[0] != '+',
        hex_value(two_digits(b)[0]) == Some((b / 16) as u8),
        hex_value(two_digits(b)[1]) == Some((b % 16) as u8),
{
    assert(HEX_DIGITS@[0] == '0' && HEX_DIGITS@[1] == '1' && HEX_DIGITS@[2] == '2'
        && HEX_DIGITS@[3] == '3' && HEX_DIGITS@[4] == '4' && HEX_DIGITS@[5] == '5'
        && HEX_DIGITS@[6] == '6' && HEX_DIGITS@[7] == '7' && HEX_DIGITS@[8] == '8'
        && HEX_DIGITS@[9] == '9' && HEX_DIGITS@[10] == 'a' && HEX_DIGITS@[11] == 'b'
        && HEX_DIGITS@[12] == 'c' && HEX_DIGITS@[13] == 'd' && HEX_DIGITS@[14] == 'e'
        && HEX_DIGITS@[15] == 'f');
}

/// A fingerprint of twelve flags is the fingerprint that its text spells.
pub proof fn lemma_scale40_round_trip(flags: Seq<bool>)
    requires
        flags.len() == 12,
    ensures
        scale40_parsed(scale40_text(pattern_of(flags, 12) as u16)) == Some(flags),
{
    lemma_pattern_flags(flags, 12);
    lemma_weight_12();
    let pattern = pattern_of(flags, 12) as u16;
    let runs = runs_of(pattern);
    let body = alphabet_text(runs);
    let bytes = vstd::utf8::encode_utf8(body);
    let sum = checksum_of(bytes, bytes.len());
    let text = scale40_text(pattern);
    lemma_runs_exist(pattern, 1, flag_at(pattern, 0), 1);
    lemma_alphabet_round_trip(runs);
    lemma_checksum_byte(bytes, bytes.len());
    lemma_two_digits(sum as u8);
    lemma_runs_round_trip(pattern);
    assert(body.len() >= 4);
    assert(text == body + two_digits(sum as u8));
    assert(text.len() == body.len() + 2);
    assert(text.subrange(0, text.len() - 2) =~= body);
    assert(text[text.len() - 2] == two_digits(sum as u8)[0]);
    assert(text[text.len() - 1] == two_digits(sum as u8)[1]);
    assert(flags_of(pattern) =~= flags);
}

} // verus!
