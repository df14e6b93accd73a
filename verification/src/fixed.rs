//! Fixed-point arithmetic kernel.
//!
//! All scheduling quantities (stability in days, difficulty, retrievability,
//! model weights) are held as integers scaled by `SC` (one millionth units).
//! The transcendental functions the memory model needs — exp, ln, and the
//! square root used for retrievability — are computed here as exact integer
//! recurrences, so every result is pinned by a spec-level definition.

use vstd::prelude::*;
use vstd::arithmetic::div_mod::{
    lemma_div_is_ordered, lemma_div_is_ordered_by_denominator, lemma_div_by_multiple,
    lemma_div_nonincreasing, lemma_div_pos_is_pos, lemma_fundamental_div_mod,
};
use vstd::arithmetic::mul::lemma_mul_nonnegative;
use vstd::arithmetic::power2::{pow2, lemma2_to64, lemma_pow2_strictly_increases};

verus! {

/// One whole unit in fixed-point representation (micro-units).
pub const SC: u64 = 1_000_000;

/// Euler's number, scaled by `SC` (floor).
pub const E_MU: u64 = 2_718_281;

/// ln 2, scaled by `SC` (floor).
pub const LN2_MU: u64 = 693_147;

/// Arguments to `exp_mu` are clamped to this magnitude (fourteen whole units).
pub const EXP_CLAMP: u64 = 14_000_000;

/// Coarse upper bound on `exp_mu`: 13·SC·3^14.
pub const EXP_MAX: u64 = 62_178_597_000_000;

/// Largest argument `ln_mu` accepts (two million whole units).
pub const LN_DOM_MAX: u64 = 2_000_000_000_000;

/// `r` is the integer square root of `n`.
pub open spec fn is_sqrt(n: int, r: int) -> bool {
    0 <= r && r * r <= n && n < (r + 1) * (r + 1)
}

/// The integer square root as a spec-level function.
pub open spec fn sqrt_floor(n: int) -> int {
    choose|r: int| is_sqrt(n, r)
}

pub proof fn lemma_sqrt_exists(n: int) -> (r: int)
    requires
        n >= 0,
    ensures
        is_sqrt(n, r),
    decreases n,
{
    if n == 0 {
        assert(is_sqrt(0, 0));
        0
    } else {
        let p = lemma_sqrt_exists(n - 1);
        if (p + 1) * (p + 1) <= n {
            assert(n - 1 < (p + 1) * (p + 1));
            assert(n == (p + 1) * (p + 1));
            assert(n < (p + 2) * (p + 2)) by (nonlinear_arith)
                requires
                    n == (p + 1) * (p + 1),
                    p >= 0,
            ;
            assert((p + 2) * (p + 2) == ((p + 1) + 1) * ((p + 1) + 1));
            assert(is_sqrt(n, p + 1));
            p + 1
        } else {
            assert(is_sqrt(n, p));
            p
        }
    }
}

pub proof fn lemma_sqrt_unique(n: int, a: int, b: int)
    requires
        is_sqrt(n, a),
        is_sqrt(n, b),
    ensures
        a == b,
{
    if a < b {
        assert((a + 1) * (a + 1) <= b * b) by (nonlinear_arith)
            requires
                0 <= a,
                0 <= b,
                a < b,
        ;
    }
    if b < a {
        assert((b + 1) * (b + 1) <= a * a) by (nonlinear_arith)
            requires
                0 <= a,
                0 <= b,
                b < a,
        ;
    }
}

pub proof fn lemma_sqrt_floor_is_sqrt(n: int)
    requires
        n >= 0,
    ensures
        is_sqrt(n, sqrt_floor(n)),
{
    let r = lemma_sqrt_exists(n);
    assert(exists|x: int| is_sqrt(n, x));
}

/// The integer square root does not decrease when its argument grows.
pub proof fn lemma_sqrt_monotone(n1: int, n2: int)
    requires
        0 <= n1 <= n2,
    ensures
        sqrt_floor(n1) <= sqrt_floor(n2),
{
    lemma_sqrt_floor_is_sqrt(n1);
    lemma_sqrt_floor_is_sqrt(n2);
    let a = sqrt_floor(n1);
    let b = sqrt_floor(n2);
    if a > b {
        assert((b + 1) * (b + 1) <= a * a) by (nonlinear_arith)
            requires
                0 <= a,
                0 <= b,
                b < a,
        ;
    }
}

/// Integer square root by bisection.
pub fn isqrt_u128(n: u128) -> (r: u128)
    requires
        n < 0x4000_0000_0000_0000_0000_0000_0000_0000u128,
    ensures
        is_sqrt(n as int, r as int),
        r == sqrt_floor(n as int),
{
    if n == 0 {
        proof {
            lemma_sqrt_floor_is_sqrt(0);
            lemma_sqrt_unique(0, 0, sqrt_floor(0));
        }
        return 0;
    }
    let mut lo: u128 = 0;
    let mut hi: u128 = 0x8000_0000_0000_0000u128;
    proof {
        assert((0x8000_0000_0000_0000u128 as int) * (0x8000_0000_0000_0000u128 as int)
            == 0x4000_0000_0000_0000_0000_0000_0000_0000u128 as int) by (nonlinear_arith);
    }
    while hi - lo > 1
        invariant
            lo < hi <= 0x8000_0000_0000_0000u128,
            (lo as int) * (lo as int) <= n as int,
            (n as int) < (hi as int) * (hi as int),
        decreases hi - lo,
    {
        let mid: u128 = lo + (hi - lo) / 2;
        proof {
            assert(lo < mid < hi);
            assert((mid as int) * (mid as int)
                <= (0x8000_0000_0000_0000u128 as int) * (0x8000_0000_0000_0000u128 as int))
                by (nonlinear_arith)
                requires
                    0 <= (mid as int) <= (0x8000_0000_0000_0000u128 as int),
            ;
        }
        if mid * mid <= n {
            lo = mid;
        } else {
            hi = mid;
        }
    }
    proof {
        assert(hi == lo + 1);
        assert(is_sqrt(n as int, lo as int));
        lemma_sqrt_floor_is_sqrt(n as int);
        lemma_sqrt_unique(n as int, lo as int, sqrt_floor(n as int));
    }
    lo
}

/// Helper: if `a*b <= c*d` with `d > 0`, then `(a*b)/d <= c`.
pub proof fn lemma_muldiv_bound(a: int, b: int, d: int, c: int)
    requires
        0 <= a,
        0 <= b,
        0 < d,
        0 <= c,
        a * b <= c * d,
    ensures
        (a * b) / d <= c,
{
    lemma_mul_nonnegative(a, b);
    lemma_div_is_ordered(a * b, c * d, d);
    lemma_div_by_multiple(c, d);
}

// ----------------------------------------------------------------------
// exp, scaled: e^(x/SC) * SC, as an exact integer recurrence.
// ----------------------------------------------------------------------

/// 3^i (used only to bound the exponential recurrence).
pub open spec fn pow3(i: nat) -> int
    decreases i,
{
    if i == 0 {
        1
    } else {
        3 * pow3((i - 1) as nat)
    }
}

/// Term `j` of the scaled Taylor series of e^(f/SC): f^j/j!, scaled.
pub open spec fn taylor_term(f: int, j: nat) -> int
    decreases j,
{
    if j == 0 {
        SC as int
    } else {
        taylor_term(f, (j - 1) as nat) * f / (SC as int * j)
    }
}

/// Partial sum of the scaled Taylor series of e^(f/SC), up to term `j`.
pub open spec fn taylor_sum(f: int, j: nat) -> int
    decreases j,
{
    if j == 0 {
        SC as int
    } else {
        taylor_sum(f, (j - 1) as nat) + taylor_term(f, j)
    }
}

/// `t` multiplied `i` times by e (scaled): carries e^(f/SC) up by the
/// integer part of the argument.
pub open spec fn exp_steps(t: int, i: nat) -> int
    decreases i,
{
    if i == 0 {
        t
    } else {
        exp_steps(t, (i - 1) as nat) * E_MU / SC as int
    }
}

/// e^(x/SC) scaled by SC, for 0 <= x.
pub open spec fn exp_pos_mu(x: int) -> int {
    exp_steps(taylor_sum(x % (SC as int), 12), (x / (SC as int)) as nat)
}

pub open spec fn clamp_i(x: int, lo: int, hi: int) -> int {
    if x < lo {
        lo
    } else if x > hi {
        hi
    } else {
        x
    }
}

/// e^(x/SC) scaled by SC; the argument is clamped to [-EXP_CLAMP, EXP_CLAMP].
pub open spec fn exp_mu_spec(x: int) -> int {
    let c = clamp_i(x, -(EXP_CLAMP as int), EXP_CLAMP as int);
    if c >= 0 {
        exp_pos_mu(c)
    } else {
        (SC as int * SC as int) / exp_pos_mu(-c)
    }
}

proof fn lemma_taylor_term_bounds(f: int, j: nat)
    requires
        0 <= f < SC,
    ensures
        0 <= taylor_term(f, j) <= SC,
    decreases j,
{
    if j > 0 {
        lemma_taylor_term_bounds(f, (j - 1) as nat);
        let prev = taylor_term(f, (j - 1) as nat);
        lemma_mul_nonnegative(prev, f);
        lemma_div_pos_is_pos(prev * f, SC as int * j);
        assert(prev * f <= SC as int * (SC as int * j)) by (nonlinear_arith)
            requires
                0 <= prev <= SC,
                0 <= f < SC,
                j >= 1,
        ;
        lemma_muldiv_bound(prev, f, SC as int * j, SC as int);
    }
}

proof fn lemma_taylor_sum_bounds(f: int, j: nat)
    requires
        0 <= f < SC,
    ensures
        SC <= taylor_sum(f, j) <= SC as int * (j + 1),
    decreases j,
{
    if j > 0 {
        lemma_taylor_sum_bounds(f, (j - 1) as nat);
        lemma_taylor_term_bounds(f, j);
        assert(SC as int * (j + 1) == SC as int * j + SC) by (nonlinear_arith);
    }
}

proof fn lemma_exp_steps_bounds(t: int, i: nat)
    requires
        0 <= t,
    ensures
        0 <= exp_steps(t, i) <= t * pow3(i),
        t >= SC ==> exp_steps(t, i) >= SC,
    decreases i,
{
    if i == 0 {
        assert(t * pow3(0) == t) by (nonlinear_arith);
    } else {
        lemma_exp_steps_bounds(t, (i - 1) as nat);
        let prev = exp_steps(t, (i - 1) as nat);
        let pb = t * pow3((i - 1) as nat);
        lemma_mul_nonnegative(prev, E_MU as int);
        lemma_div_pos_is_pos(prev * E_MU, SC as int);
        // upper bound: prev * E_MU / SC <= 3 * prev <= 3 * pb == t * pow3(i)
        assert(prev * E_MU as int <= (3 * prev) * SC as int) by (nonlinear_arith)
            requires
                0 <= prev,
        ;
        lemma_muldiv_bound(prev, E_MU as int, SC as int, 3 * prev);
        assert(3 * prev <= 3 * pb) by (nonlinear_arith)
            requires
                prev <= pb,
        ;
        assert(3 * pb == t * pow3(i)) by (nonlinear_arith)
            requires
                pb == t * pow3((i - 1) as nat),
                pow3(i) == 3 * pow3((i - 1) as nat),
        ;
        if t >= SC {
            // lower bound: prev * E_MU / SC >= prev since E_MU >= SC
            assert(prev * SC as int <= prev * E_MU as int) by (nonlinear_arith)
                requires
                    0 <= prev,
            ;
            lemma_div_is_ordered(prev * SC as int, prev * E_MU as int, SC as int);
            lemma_div_by_multiple(prev, SC as int);
        }
    }
}

proof fn lemma_pow3_values()
    ensures
        pow3(14) == 4782969,
{
    reveal_with_fuel(pow3, 15);
}

proof fn lemma_pow3_pos(i: nat)
    ensures
        pow3(i) >= 1,
    decreases i,
{
    if i > 0 {
        lemma_pow3_pos((i - 1) as nat);
    }
}

proof fn lemma_pow3_monotone(i: nat, j: nat)
    requires
        i <= j,
    ensures
        pow3(i) <= pow3(j),
        pow3(i) >= 1,
    decreases j,
{
    lemma_pow3_pos(i);
    if i < j {
        lemma_pow3_monotone(i, (j - 1) as nat);
        lemma_pow3_pos((j - 1) as nat);
        assert(pow3(j) == 3 * pow3((j - 1) as nat));
    }
}

/// Bounds of the scaled positive exponential on its clamped domain.
pub proof fn lemma_exp_pos_bounds(x: int)
    requires
        0 <= x <= EXP_CLAMP,
    ensures
        SC <= exp_pos_mu(x) <= EXP_MAX,
{
    let f = x % (SC as int);
    let i = (x / (SC as int)) as nat;
    vstd::arithmetic::div_mod::lemma_mod_bound(x, SC as int);
    lemma_taylor_sum_bounds(f, 12);
    let t = taylor_sum(f, 12);
    lemma_exp_steps_bounds(t, i);
    lemma_div_is_ordered(x, 14 * (SC as int), SC as int);
    lemma_div_by_multiple(14, SC as int);
    lemma_div_pos_is_pos(x, SC as int);
    assert(i <= 14);
    lemma_pow3_monotone(i, 14);
    lemma_pow3_values();
    assert(t * pow3(i) <= 13 * (SC as int) * 4782969) by (nonlinear_arith)
        requires
            0 <= t <= 13 * (SC as int),
            1 <= pow3(i) <= 4782969,
    ;
}

proof fn lemma_taylor_zero(j: nat)
    ensures
        j >= 1 ==> taylor_term(0, j) == 0,
        taylor_sum(0, j) == SC,
    decreases j,
{
    if j >= 1 {
        lemma_taylor_zero((j - 1) as nat);
        assert(taylor_term(0, (j - 1) as nat) * 0 == 0) by (nonlinear_arith);
    }
}

/// exp of zero is exactly one unit.
pub proof fn lemma_exp_zero()
    ensures
        exp_pos_mu(0) == SC,
        exp_mu_spec(0) == SC,
{
    lemma_taylor_zero(12);
}

fn taylor_term_exec(f: u64, j: u64) -> (t: u64)
    requires
        f < SC,
        j <= 12,
    ensures
        t == taylor_term(f as int, j as nat),
        t <= SC,
    decreases j,
{
    if j == 0 {
        SC
    } else {
        let prev = taylor_term_exec(f, j - 1);
        proof {
            lemma_taylor_term_bounds(f as int, (j - 1) as nat);
            lemma_mul_nonnegative(prev as int, f as int);
            assert(prev as int * f as int <= SC as int * (SC as int * j)) by (nonlinear_arith)
                requires
                    0 <= (prev as int) <= (SC as int),
                    0 <= (f as int) && (f as int) < (SC as int),
                    1 <= j as int,
            ;
            lemma_muldiv_bound(prev as int, f as int, SC as int * j as int, SC as int);
        }
        (prev * f) / (SC * j)
    }
}

fn taylor_sum_exec(f: u64, j: u64) -> (s: u64)
    requires
        f < SC,
        j <= 12,
    ensures
        s == taylor_sum(f as int, j as nat),
        SC <= s <= SC * (j + 1),
    decreases j,
{
    if j == 0 {
        SC
    } else {
        let prev = taylor_sum_exec(f, j - 1);
        let t = taylor_term_exec(f, j);
        proof {
            lemma_taylor_sum_bounds(f as int, (j - 1) as nat);
            lemma_taylor_term_bounds(f as int, j as nat);
        }
        prev + t
    }
}

fn exp_steps_exec(t0: u64, i: u64) -> (r: u64)
    requires
        t0 <= 13 * SC,
        i <= 14,
    ensures
        r == exp_steps(t0 as int, i as nat),
        r <= EXP_MAX,
        t0 >= SC ==> r >= SC,
    decreases i,
{
    proof {
        lemma_exp_steps_bounds(t0 as int, i as nat);
        lemma_pow3_monotone(i as nat, 14);
        lemma_pow3_values();
        assert(t0 as int * pow3(i as nat) <= 13 * (SC as int) * 4782969) by (nonlinear_arith)
            requires
                0 <= (t0 as int) <= 13 * (SC as int),
                1 <= pow3(i as nat) <= 4782969,
        ;
    }
    if i == 0 {
        t0
    } else {
        let prev = exp_steps_exec(t0, i - 1);
        proof {
            lemma_mul_nonnegative(prev as int, E_MU as int);
            assert((prev as int) * (E_MU as int) < 0x10000000000000000000000000000000) by (nonlinear_arith)
                requires
                    0 <= (prev as int) <= 0xffff_ffff_ffff_ffff,
            ;
        }
        let wide: u128 = (prev as u128) * (E_MU as u128) / (SC as u128);
        proof {
            assert(wide == exp_steps(t0 as int, i as nat));
            lemma_exp_steps_bounds(t0 as int, i as nat);
            assert(exp_steps(t0 as int, i as nat) <= EXP_MAX);
        }
        wide as u64
    }
}

fn exp_pos_exec(x: u64) -> (r: u64)
    requires
        x <= EXP_CLAMP,
    ensures
        r == exp_pos_mu(x as int),
        SC <= r <= EXP_MAX,
{
    let f = x % SC;
    let i = x / SC;
    proof {
        lemma_div_is_ordered(x as int, 14 * (SC as int), SC as int);
        lemma_div_by_multiple(14, SC as int);
        lemma_div_pos_is_pos(x as int, SC as int);
        lemma_exp_pos_bounds(x as int);
    }
    let t = taylor_sum_exec(f, 12);
    exp_steps_exec(t, i)
}

/// e^(x/SC) scaled by SC. Arguments beyond ±EXP_CLAMP are clamped first.
pub fn exp_mu(x: i64) -> (r: u64)
    ensures
        r == exp_mu_spec(x as int),
        r <= EXP_MAX,
        x >= 0 ==> SC <= r,
        x <= 0 ==> r <= SC,
{
    if x >= 0 {
        let c: u64 = if x > EXP_CLAMP as i64 {
            EXP_CLAMP
        } else {
            x as u64
        };
        proof {
            if x == 0 {
                lemma_exp_zero();
            }
        }
        exp_pos_exec(c)
    } else {
        let c: u64 = if x < -(EXP_CLAMP as i64) {
            EXP_CLAMP
        } else {
            (-x) as u64
        };
        let p = exp_pos_exec(c);
        proof {
            lemma_div_pos_is_pos(SC as int * SC as int, p as int);
            lemma_div_is_ordered_by_denominator(SC as int * SC as int, SC as int, p as int);
            lemma_div_by_multiple(SC as int, SC as int);
            assert((SC as int * SC as int) / (SC as int) == SC as int);
        }
        ((SC * SC) / p) as u64
    }
}

// ----------------------------------------------------------------------
// ln, scaled: ln(x/SC) * SC, as an exact integer recurrence.
// ----------------------------------------------------------------------

/// Mantissa after repeatedly halving until the value is below 2·SC.
pub open spec fn norm_down_m(x: int) -> int
    decreases x,
{
    if x < 2 * SC {
        x
    } else {
        norm_down_m(x / 2)
    }
}

/// Number of halvings performed by `norm_down_m`.
pub open spec fn norm_down_k(x: int) -> nat
    decreases x,
{
    if x < 2 * SC {
        0
    } else {
        norm_down_k(x / 2) + 1
    }
}

/// Mantissa after repeatedly doubling until the value reaches SC.
pub open spec fn norm_up_m(x: int) -> int
    decreases 2 * SC - x,
    when 1 <= x < 2 * SC
{
    if x >= SC {
        x
    } else {
        norm_up_m(2 * x)
    }
}

/// Number of doublings performed by `norm_up_m`.
pub open spec fn norm_up_j(x: int) -> nat
    decreases 2 * SC - x,
    when 1 <= x < 2 * SC
{
    if x >= SC {
        0
    } else {
        norm_up_j(2 * x) + 1
    }
}

/// The series variable z = (m-SC)·SC/(m+SC) for a mantissa m in [SC, 2·SC).
pub open spec fn z_of(m: int) -> int {
    (m - SC) * SC / (m + SC)
}

/// Term i of the scaled atanh series: z^(2i+1), scaled.
pub open spec fn at_term(z: int, i: nat) -> int
    decreases i,
{
    if i == 0 {
        z
    } else {
        at_term(z, (i - 1) as nat) * (z * z / SC as int) / SC as int
    }
}

/// Partial sum of the scaled atanh series: sum of z^(2i+1)/(2i+1).
pub open spec fn at_sum(z: int, i: nat) -> int
    decreases i,
{
    if i == 0 {
        z
    } else {
        at_sum(z, (i - 1) as nat) + at_term(z, i) / ((2 * i + 1) as int)
    }
}

/// ln(x/SC) scaled by SC: normalise into [SC, 2·SC), then use
/// ln m = 2·atanh((m-SC)/(m+SC)) and add or subtract multiples of ln 2.
pub open spec fn ln_mu_spec(x: int) -> int {
    if x >= SC {
        norm_down_k(x) * LN2_MU + 2 * at_sum(z_of(norm_down_m(x)), 10)
    } else {
        2 * at_sum(z_of(norm_up_m(x)), 10) - norm_up_j(x) * LN2_MU
    }
}

proof fn lemma_norm_down(x: int)
    requires
        SC <= x <= LN_DOM_MAX,
    ensures
        SC <= norm_down_m(x) < 2 * SC,
        norm_down_k(x) <= 20,
        SC as int * pow2(norm_down_k(x)) <= x,
    decreases x,
{
    if x < 2 * SC {
        assert(pow2(0) == 1) by {
            lemma2_to64();
        }
    } else {
        lemma_div_is_ordered(2 * (SC as int), x, 2);
        lemma_div_by_multiple(SC as int, 2);
        lemma_div_nonincreasing(x, 2);
        lemma_norm_down(x / 2);
        let k = norm_down_k(x / 2);
        assert(pow2(k + 1) == 2 * pow2(k)) by {
            vstd::arithmetic::power2::lemma_pow2_unfold(k + 1);
        }
        lemma_fundamental_div_mod(x, 2);
        vstd::arithmetic::div_mod::lemma_mod_bound(x, 2);
        assert(SC as int * pow2(k + 1) == 2 * (SC as int * pow2(k))) by (nonlinear_arith)
            requires
                pow2(k + 1) == 2 * pow2(k),
        ;
        if norm_down_k(x) > 20 {
            assert(k + 1 >= 21);
            assert(pow2(k + 1) >= pow2(21)) by {
                if k + 1 > 21 {
                    lemma_pow2_strictly_increases(21, k + 1);
                }
            }
            assert(pow2(21) == 0x200000) by {
                lemma2_to64();
            }
            assert(SC as int * pow2(k + 1) >= SC as int * 0x200000) by (nonlinear_arith)
                requires
                    pow2(k + 1) >= 0x200000,
            ;
            assert(false);
        }
    }
}

proof fn lemma_norm_up(x: int)
    requires
        1 <= x < 2 * SC,
    ensures
        x >= SC ==> norm_up_m(x) == x && norm_up_j(x) == 0,
        SC <= norm_up_m(x) < 2 * SC,
        norm_up_j(x) <= 20,
        norm_up_m(x) == x * pow2(norm_up_j(x)),
    decreases 2 * SC - x,
{
    if x >= SC {
        assert(pow2(0) == 1) by {
            lemma2_to64();
        }
        assert(x * 1 == x) by (nonlinear_arith);
    } else {
        lemma_norm_up(2 * x);
        let j = norm_up_j(2 * x);
        assert(pow2(j + 1) == 2 * pow2(j)) by {
            vstd::arithmetic::power2::lemma_pow2_unfold(j + 1);
        }
        assert(norm_up_m(x) == norm_up_m(2 * x));
        assert(norm_up_m(2 * x) == (2 * x) * pow2(j));
        assert((2 * x) * pow2(j) == x * pow2(j + 1)) by (nonlinear_arith)
            requires
                pow2(j + 1) == 2 * pow2(j),
        ;
        if norm_up_j(x) > 20 {
            assert(j + 1 >= 21);
            assert(pow2(j + 1) >= pow2(21)) by {
                if j + 1 > 21 {
                    lemma_pow2_strictly_increases(21, j + 1);
                }
            }
            assert(pow2(21) == 0x200000) by {
                lemma2_to64();
            }
            assert(x * pow2(j + 1) >= 1 * 0x200000) by (nonlinear_arith)
                requires
                    x >= 1,
                    pow2(j + 1) >= 0x200000,
            ;
            assert(false);
        }
    }
}

proof fn lemma_z_bounds(m: int)
    requires
        SC <= m < 2 * SC,
    ensures
        0 <= z_of(m) <= 334_000,
{
    let a = m - SC;
    lemma_mul_nonnegative(a, SC as int);
    lemma_div_pos_is_pos(a * SC as int, m + SC);
    assert(a * SC as int <= 334_000 * (m + SC)) by (nonlinear_arith)
        requires
            0 <= a < SC,
            m == a + SC,
    ;
    lemma_muldiv_bound(a, SC as int, m + SC, 334_000);
}

proof fn lemma_at_term_bounds(z: int, i: nat)
    requires
        0 <= z <= 334_000,
    ensures
        0 <= at_term(z, i) <= z,
        i >= 1 ==> at_term(z, i) <= z / 8,
    decreases i,
{
    if i >= 1 {
        lemma_at_term_bounds(z, (i - 1) as nat);
        let prev = at_term(z, (i - 1) as nat);
        let zsq = z * z / SC as int;
        lemma_mul_nonnegative(z, z);
        lemma_div_pos_is_pos(z * z, SC as int);
        assert(z * z <= 125_000 * SC as int) by (nonlinear_arith)
            requires
                0 <= z <= 334_000,
        ;
        lemma_muldiv_bound(z, z, SC as int, 125_000);
        lemma_mul_nonnegative(prev, zsq);
        lemma_div_pos_is_pos(prev * zsq, SC as int);
        // at_term(i) = prev * zsq / SC <= (prev * 125000) / SC == prev / 8 <= z / 8
        assert(prev * zsq <= prev * 125_000) by (nonlinear_arith)
            requires
                0 <= prev,
                zsq <= 125_000,
        ;
        lemma_div_is_ordered(prev * zsq, prev * 125_000, SC as int);
        vstd::arithmetic::div_mod::lemma_div_denominator(prev * 125_000, 125_000, 8);
        lemma_div_by_multiple(prev, 125_000);
        assert(125_000 * 8 == SC as int);
        assert((prev * 125_000) / (SC as int) == prev / 8);
        lemma_div_is_ordered(prev, z, 8);
        lemma_div_nonincreasing(z, 8);
    }
}

proof fn lemma_at_sum_bounds(z: int, i: nat)
    requires
        0 <= z <= 334_000,
    ensures
        0 <= at_sum(z, i) <= z + i * (z / 8),
    decreases i,
{
    if i >= 1 {
        lemma_at_sum_bounds(z, (i - 1) as nat);
        lemma_at_term_bounds(z, i);
        lemma_div_pos_is_pos(at_term(z, i), (2 * i + 1) as int);
        lemma_div_nonincreasing(at_term(z, i), (2 * i + 1) as int);
        assert(at_term(z, i) / ((2 * i + 1) as int) <= z / 8);
        assert(z + i * (z / 8) == z + (i - 1) * (z / 8) + z / 8) by (nonlinear_arith);
    }
}

fn norm_down_exec(x: u64) -> (r: (u64, u64))
    requires
        SC <= x <= LN_DOM_MAX,
    ensures
        r.0 == norm_down_m(x as int),
        r.1 == norm_down_k(x as int),
        SC <= r.0 < 2 * SC,
        r.1 <= 20,
    decreases x,
{
    proof {
        lemma_norm_down(x as int);
    }
    if x < 2 * SC {
        (x, 0)
    } else {
        proof {
            lemma_div_is_ordered(2 * (SC as int), x as int, 2);
            lemma_div_by_multiple(SC as int, 2);
        }
        let (m, k) = norm_down_exec(x / 2);
        (m, k + 1)
    }
}

fn norm_up_exec(x: u64) -> (r: (u64, u64))
    requires
        1 <= x < 2 * SC,
    ensures
        r.0 == norm_up_m(x as int),
        r.1 == norm_up_j(x as int),
        SC <= r.0 < 2 * SC,
        r.1 <= 20,
    decreases 2 * SC - x,
{
    proof {
        lemma_norm_up(x as int);
    }
    if x >= SC {
        (x, 0)
    } else {
        let (m, j) = norm_up_exec(2 * x);
        (m, j + 1)
    }
}

fn at_term_exec(z: u64, zsq: u64, i: u64) -> (t: u64)
    requires
        z <= 334_000,
        zsq == z as int * z as int / SC as int,
        i <= 10,
    ensures
        t == at_term(z as int, i as nat),
        t <= z,
    decreases i,
{
    proof {
        lemma_at_term_bounds(z as int, i as nat);
    }
    if i == 0 {
        z
    } else {
        let prev = at_term_exec(z, zsq, i - 1);
        proof {
            lemma_at_term_bounds(z as int, (i - 1) as nat);
            assert(z as int * z as int <= 125_000 * SC as int) by (nonlinear_arith)
                requires
                    0 <= (z as int) <= 334_000,
            ;
            lemma_mul_nonnegative(z as int, z as int);
            lemma_div_pos_is_pos(z as int * z as int, SC as int);
            lemma_muldiv_bound(z as int, z as int, SC as int, 125_000);
            assert(prev as int * zsq as int <= 334_000 * 125_000) by (nonlinear_arith)
                requires
                    0 <= (prev as int) <= 334_000,
                    0 <= (zsq as int) <= 125_000,
            ;
        }
        (prev * zsq) / SC
    }
}

fn at_sum_exec(z: u64, i: u64) -> (s: u64)
    requires
        z <= 334_000,
        i <= 10,
    ensures
        s == at_sum(z as int, i as nat),
        s <= z + i * (z / 8),
    decreases i,
{
    proof {
        lemma_at_sum_bounds(z as int, i as nat);
    }
    if i == 0 {
        z
    } else {
        let prev = at_sum_exec(z, i - 1);
        proof {
            assert(z as int * z as int <= 334_000 * 334_000) by (nonlinear_arith)
                requires
                    0 <= (z as int) <= 334_000,
            ;
        }
        let zsq = (z * z) / SC;
        let t = at_term_exec(z, zsq, i);
        proof {
            lemma_at_sum_bounds(z as int, (i - 1) as nat);
            lemma_at_term_bounds(z as int, i as nat);
            lemma_div_pos_is_pos(t as int, 2 * (i as int) + 1);
            lemma_div_nonincreasing(t as int, 2 * (i as int) + 1);
            assert((i - 1) as int * ((z as int) / 8) <= 10 * ((z as int) / 8)) by (nonlinear_arith)
                requires
                    1 <= (i as int) <= 10,
                    0 <= ((z as int) / 8),
            ;
            assert(i as int * ((z as int) / 8) <= 10 * ((z as int) / 8)) by (nonlinear_arith)
                requires
                    1 <= (i as int) <= 10,
                    0 <= ((z as int) / 8),
            ;
            lemma_div_nonincreasing(z as int, 8);
        }
        prev + t / (2 * i + 1)
    }
}

/// ln(x/SC) scaled by SC.
pub fn ln_mu(x: u64) -> (r: i64)
    requires
        1 <= x <= LN_DOM_MAX,
    ensures
        r == ln_mu_spec(x as int),
        -16_000_000 <= r <= 16_000_000,
        x >= SC ==> r >= 0,
{
    if x >= SC {
        let (m, k) = norm_down_exec(x);
        proof {
            lemma_z_bounds(m as int);
            assert((m as int - SC) * SC as int <= SC as int * SC as int) by (nonlinear_arith)
                requires
                    0 <= (m as int) - SC < (SC as int),
            ;
            lemma_mul_nonnegative(m as int - SC, SC as int);
        }
        let z = ((m - SC) * SC) / (m + SC);
        let s = at_sum_exec(z, 10);
        proof {
            lemma_at_sum_bounds(z as int, 10);
            lemma_div_nonincreasing(z as int, 8);
            assert(10 * ((z as int) / 8) <= 10 * 334_000) by (nonlinear_arith)
                requires
                    0 <= ((z as int) / 8) <= 334_000,
            ;
            assert(k as int * LN2_MU as int <= 20 * (LN2_MU as int)) by (nonlinear_arith)
                requires
                    0 <= (k as int) <= 20,
            ;
            lemma_mul_nonnegative(k as int, LN2_MU as int);
        }
        (k as i64) * (LN2_MU as i64) + 2 * (s as i64)
    } else {
        let (m, j) = norm_up_exec(x);
        proof {
            lemma_z_bounds(m as int);
            assert((m as int - SC) * SC as int <= SC as int * SC as int) by (nonlinear_arith)
                requires
                    0 <= (m as int) - SC < (SC as int),
            ;
            lemma_mul_nonnegative(m as int - SC, SC as int);
        }
        let z = ((m - SC) * SC) / (m + SC);
        let s = at_sum_exec(z, 10);
        proof {
            lemma_at_sum_bounds(z as int, 10);
            lemma_div_nonincreasing(z as int, 8);
            assert(10 * ((z as int) / 8) <= 10 * 334_000) by (nonlinear_arith)
                requires
                    0 <= ((z as int) / 8) <= 334_000,
            ;
            assert(j as int * LN2_MU as int <= 20 * (LN2_MU as int)) by (nonlinear_arith)
                requires
                    0 <= (j as int) <= 20,
            ;
            lemma_mul_nonnegative(j as int, LN2_MU as int);
        }
        2 * (s as i64) - (j as i64) * (LN2_MU as i64)
    }
}

// ----------------------------------------------------------------------
// Fractional powers via exp and ln.
// ----------------------------------------------------------------------

/// (p·l)/SC with only nonnegative integer division, keeping the sign of `l`.
pub open spec fn scale_by(p: int, l: int) -> int {
    if l >= 0 {
        p * l / SC as int
    } else {
        -(p * (-l) / SC as int)
    }
}

/// (x/SC)^(-p/SC) scaled by SC: exp(-p·ln x).
pub open spec fn pow_neg_mu_spec(x: int, p: int) -> int {
    exp_mu_spec(-scale_by(p, ln_mu_spec(x)))
}

/// (x/SC)^(p/SC) scaled by SC: exp(p·ln x).
pub open spec fn pow_pos_mu_spec(x: int, p: int) -> int {
    exp_mu_spec(scale_by(p, ln_mu_spec(x)))
}

fn scale_by_exec(p: u64, l: i64) -> (r: i64)
    requires
        p <= 10 * SC,
        -16_000_000 <= l <= 16_000_000,
    ensures
        r == scale_by(p as int, l as int),
        -160_000_000 <= r <= 160_000_000,
{
    if l >= 0 {
        proof {
            lemma_mul_nonnegative(p as int, l as int);
            assert(p as int * l as int <= 160_000_000 * SC as int) by (nonlinear_arith)
                requires
                    0 <= (p as int) <= 10 * (SC as int),
                    0 <= (l as int) <= 16_000_000,
                    SC == 1_000_000u64,
            ;
            lemma_muldiv_bound(p as int, l as int, SC as int, 160_000_000);
        }
        let wide: u128 = (p as u128) * (l as u128) / (SC as u128);
        wide as i64
    } else {
        let neg: u64 = (-l) as u64;
        proof {
            lemma_mul_nonnegative(p as int, neg as int);
            assert(p as int * neg as int <= 160_000_000 * SC as int) by (nonlinear_arith)
                requires
                    0 <= (p as int) <= 10 * (SC as int),
                    0 <= (neg as int) <= 16_000_000,
                    SC == 1_000_000u64,
            ;
            lemma_muldiv_bound(p as int, neg as int, SC as int, 160_000_000);
        }
        let wide: u128 = (p as u128) * (neg as u128) / (SC as u128);
        -(wide as i64)
    }
}

/// (x/SC)^(-p/SC) scaled by SC, computed as exp(-p·ln x).
pub fn pow_neg_mu(x: u64, p: u64) -> (r: u64)
    requires
        1 <= x <= LN_DOM_MAX,
        p <= 10 * SC,
    ensures
        r == pow_neg_mu_spec(x as int, p as int),
        r <= EXP_MAX,
{
    let l = ln_mu(x);
    let a = scale_by_exec(p, l);
    exp_mu(-a)
}

/// (x/SC)^(p/SC) scaled by SC, computed as exp(p·ln x).
pub fn pow_pos_mu(x: u64, p: u64) -> (r: u64)
    requires
        1 <= x <= LN_DOM_MAX,
        p <= 10 * SC,
    ensures
        r == pow_pos_mu_spec(x as int, p as int),
        r <= EXP_MAX,
        x >= SC ==> r >= SC,
{
    let l = ln_mu(x);
    let a = scale_by_exec(p, l);
    proof {
        if x >= SC {
            assert(l >= 0);
            assert(a >= 0) by {
                if l >= 0 {
                    lemma_mul_nonnegative(p as int, l as int);
                    lemma_div_pos_is_pos(p as int * l as int, SC as int);
                }
            }
        }
    }
    exp_mu(a)
}

} // verus!
