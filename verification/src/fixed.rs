//! Fixed-point decimals with six fractional digits.
//!
//! All scores, weights and relative frequencies of the engine are counted in
//! millionths. Sums are exact; a product or quotient is rounded down to the
//! next millionth, and every contract states that rounding.

use vstd::prelude::*;

verus! {

/// One whole unit, in millionths.
pub const SCALE: i64 = 1_000_000;

/// A decimal number held as a count of millionths.
#[derive(Clone, Copy, Debug, PartialEq, Eq, PartialOrd, Ord, Hash, Structural)]
pub struct Fixed {
    pub micros: i64,
}

/// `x` limited to the closed range from `lo` to `hi`.
pub open spec fn clamp(x: int, lo: int, hi: int) -> int {
    if x < lo {
        lo
    } else if x > hi {
        hi
    } else {
        x
    }
}

/// The product of two counts of millionths, again in millionths, rounded down.
pub open spec fn scaled_mul(a: int, b: int) -> int {
    (a * b) / (SCALE as int)
}

/// `num / den` in millionths, rounded down; `den` must be positive.
pub open spec fn scaled_ratio(num: int, den: int) -> int {
    (num * (SCALE as int)) / den
}

/// Division rounded toward negative infinity, for a positive divisor.
pub fn floor_div(a: i128, b: i128) -> (q: i128)
    requires
        b > 0,
        -0x4000_0000_0000_0000_0000_0000_0000_0000 < a < 0x4000_0000_0000_0000_0000_0000_0000_0000,
        b < 0x4000_0000_0000_0000_0000_0000_0000_0000,
    ensures
        q == a / b,
        a >= 0 ==> 0 <= q <= a,
        a < 0 ==> a <= q < 0,
{
    if a >= 0 {
        let q: i128 = a / b;
        proof {
            vstd::arithmetic::div_mod::lemma_div_pos_is_pos(a as int, b as int);
            vstd::arithmetic::div_mod::lemma_div_nonincreasing(a as int, b as int);
        }
        q
    } else {
        let n: i128 = -a;
        let m: i128 = n + (b - 1);
        let c: i128 = m / b;
        proof {
            lemma_floor_of_negative(n as int, b as int);
        }
        -c
    }
}

/// For `n >= 0` and `b > 0`, the floor of `-n / b` is minus the ceiling of `n / b`.
proof fn lemma_floor_of_negative(n: int, b: int)
    requires
        n > 0,
        b > 0,
    ensures
        (-n) / b == -((n + (b - 1)) / b),
        0 < (n + (b - 1)) / b <= n,
{
    let c = (n + (b - 1)) / b;
    let r = (n + (b - 1)) % b;
    vstd::arithmetic::div_mod::lemma_fundamental_div_mod(n + (b - 1), b);
    vstd::arithmetic::div_mod::lemma_mod_bound(n + (b - 1), b);
    // n + b - 1 == b * c + r with 0 <= r < b, so -n == b * (-c) + (b - 1 - r).
    assert(b * (-c) == -(b * c)) by (nonlinear_arith);
    assert(-n == b * (-c) + (b - 1 - r));
    vstd::arithmetic::div_mod::lemma_fundamental_div_mod_converse(-n, b, -c, b - 1 - r);
    assert(c > 0) by (nonlinear_arith)
        requires
            n + (b - 1) == b * c + r,
            0 <= r < b,
            n > 0,
            b > 0,
    ;
    assert(c <= n) by (nonlinear_arith)
        requires
            n + (b - 1) == b * c + r,
            0 <= r < b,
            n > 0,
            b > 0,
            c > 0,
    ;
}

impl Fixed {
    /// The number of millionths as a mathematical integer.
    pub open spec fn value(self) -> int {
        self.micros as int
    }

    pub fn from_micros(micros: i64) -> (f: Fixed)
        ensures
            f.micros == micros,
    {
        Fixed { micros }
    }

    pub fn zero() -> (f: Fixed)
        ensures
            f.micros == 0,
    {
        Fixed { micros: 0 }
    }

    pub fn one() -> (f: Fixed)
        ensures
            f.micros == SCALE,
    {
        Fixed { micros: SCALE }
    }

    /// `num / den` as a fixed-point number, rounded down.
    pub fn ratio(num: u32, den: u32) -> (f: Fixed)
        requires
            den > 0,
        ensures
            f.value() == scaled_ratio(num as int, den as int),
            0 <= f.value(),
            num <= den ==> f.value() <= SCALE,
    {
        let n: u64 = (num as u64) * 1_000_000;
        let q: u64 = n / (den as u64);
        proof {
            lemma_ratio_bound(num as int, den as int);
        }
        Fixed { micros: q as i64 }
    }
}

/// A ratio of a part to a whole lies between zero and one.
pub proof fn lemma_ratio_bound(num: int, den: int)
    requires
        0 <= num,
        0 < den,
    ensures
        0 <= scaled_ratio(num, den) <= num * (SCALE as int),
        num <= den ==> scaled_ratio(num, den) <= SCALE,
{
    let s = SCALE as int;
    assert(0 <= num * s) by (nonlinear_arith)
        requires
            0 <= num,
            s == 1_000_000,
    ;
    vstd::arithmetic::div_mod::lemma_div_pos_is_pos(num * s, den);
    vstd::arithmetic::div_mod::lemma_div_nonincreasing(num * s, den);
    if num <= den {
        assert(num * s <= den * s) by (nonlinear_arith)
            requires
                num <= den,
                s == 1_000_000,
        ;
        vstd::arithmetic::div_mod::lemma_div_is_ordered(num * s, den * s, den);
        vstd::arithmetic::div_mod::lemma_div_multiples_vanish(s, den);
        assert(den * s == s * den) by (nonlinear_arith);
    }
}

/// `n` times `each`, as far as the bound goes.
pub fn capped_times(n: usize, each: i128, bound: i128) -> (r: i128)
    requires
        0 <= each <= 1_000_000_000,
        0 <= bound <= 1_000_000_000_000,
    ensures
        r == if n * each > bound {
            bound as int
        } else {
            n * each
        },
        0 <= r <= bound,
{
    if each == 0 {
        assert(n * each == 0) by (nonlinear_arith)
            requires
                each == 0,
        ;
        return 0;
    }
    let most = bound / each;
    if (n as i128) > most {
        assert(n * each > bound) by (nonlinear_arith)
            requires
                n > bound / each,
                each > 0,
                bound >= 0,
        ;
        bound
    } else {
        assert(0 <= n * each <= bound) by (nonlinear_arith)
            requires
                0 <= n <= bound / each,
                each > 0,
                bound >= 0,
        ;
        (n as i128) * each
    }
}


/// `x` limited to the range from `lo` to `hi`.
pub fn clamp_to(x: i128, lo: i64, hi: i64) -> (r: i64)
    requires
        lo <= hi,
    ensures
        r == clamp(x as int, lo as int, hi as int),
{
    if x < lo as i128 {
        lo
    } else if x > hi as i128 {
        hi
    } else {
        x as i64
    }
}

/// The product of two fixed-point numbers of moderate size, rounded down.
pub fn scale_by(x: i64, factor: i64) -> (r: i64)
    requires
        -9_000_000_000_000_000 <= x <= 9_000_000_000_000_000,
        0 <= factor <= 1_000_000_000,
    ensures
        r == scaled_mul(x as int, factor as int),
        -9_000_000_000_000_000_000 <= r <= 9_000_000_000_000_000_000,
        x >= 0 ==> 0 <= r,
        (x >= 0 && factor <= SCALE) ==> r <= x,
{
    assert(-9_000_000_000_000_000_000_000_000 <= x * factor
        <= 9_000_000_000_000_000_000_000_000) by (nonlinear_arith)
        requires
            -9_000_000_000_000_000 <= x <= 9_000_000_000_000_000,
            0 <= factor <= 1_000_000_000,
    ;
    let product: i128 = (x as i128) * (factor as i128);
    let q = floor_div(product, 1_000_000);
    proof {
        if x >= 0 {
            assert(0 <= x * factor) by (nonlinear_arith)
                requires
                    x >= 0,
                    factor >= 0,
            ;
            if factor <= SCALE {
                assert(x * factor <= x * 1_000_000) by (nonlinear_arith)
                    requires
                        x >= 0,
                        0 <= factor <= 1_000_000,
                ;
                vstd::arithmetic::div_mod::lemma_div_is_ordered(x * factor, x * 1_000_000, 1_000_000);
                vstd::arithmetic::div_mod::lemma_div_multiples_vanish(x as int, 1_000_000);
                assert(x * 1_000_000 == 1_000_000 * x) by (nonlinear_arith);
            }
        }
        vstd::arithmetic::div_mod::lemma_div_is_ordered(
            x * factor,
            9_000_000_000_000_000_000_000_000,
            1_000_000,
        );
        vstd::arithmetic::div_mod::lemma_div_is_ordered(
            -9_000_000_000_000_000_000_000_000,
            x * factor,
            1_000_000,
        );
        assert(9_000_000_000_000_000_000_000_000int / 1_000_000 == 9_000_000_000_000_000_000);
        assert((-9_000_000_000_000_000_000_000_000int) / 1_000_000
            == -9_000_000_000_000_000_000);
    }
    q as i64
}

} // verus!
