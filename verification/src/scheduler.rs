//! The adaptive scheduling engine: an FSRS-style memory model.
//!
//! All quantities are fixed-point integers scaled by `fixed::SC` (micro-units):
//! stability is in micro-days, difficulty on a scaled 1..10 scale, and
//! retrievability a scaled probability in [0, SC]. Every update is pinned to a
//! spec-level integer formula, so properties like rating monotonicity and the
//! stability-lowering effect of a lapse are proved, not sampled.

use vstd::prelude::*;
use vstd::arithmetic::div_mod::{
    lemma_div_is_ordered, lemma_div_is_ordered_by_denominator, lemma_div_by_multiple,
    lemma_div_nonincreasing, lemma_div_pos_is_pos,
};
use vstd::arithmetic::mul::lemma_mul_nonnegative;
use crate::fixed::{
    SC, EXP_MAX, clamp_i, exp_mu, exp_mu_spec, pow_neg_mu, pow_neg_mu_spec, pow_pos_mu,
    pow_pos_mu_spec, isqrt_u128, is_sqrt, sqrt_floor, lemma_sqrt_floor_is_sqrt,
    lemma_sqrt_unique, lemma_sqrt_monotone, lemma_muldiv_bound,
};
use crate::review::{ReviewRating, spec_rating_index};

verus! {

/// Smallest stability the model produces: a tenth of a day, scaled.
pub const MIN_STABILITY: u64 = 100_000;

/// Largest stability the model stores: one hundred years of days, scaled.
/// Growth past this cap cannot change any schedule, because intervals are
/// clamped to at most 36500 days anyway.
pub const MAX_STABILITY: u64 = 36_500_000_000;

/// Largest difficulty (hardest), scaled.
pub const MAX_DIFFICULTY: u64 = 10_000_000;

/// Cap applied to intermediate growth factors so products stay in machine
/// range; a factor this large saturates stability at `MAX_STABILITY` anyway.
pub const G_CAP: u64 = 100_000_000_000_000_000;

/// Largest elapsed time the model accepts, in micro-days.
pub const MAX_ELAPSED: u64 = 200_000_000_000_000;

/// Timestamps are bounded to keep second/day conversions in machine range;
/// the bound covers every timestamp the chrono clock can produce.
pub const MAX_TIMESTAMP: i64 = 8_400_000_000_000;

/// FSRS model parameters, scaled by `SC`. The retrievability factor (19/81)
/// and decay (-1/2) are fixed inside the formulas, and the 90% retention
/// target is baked into the retrievability and interval definitions; only
/// the weights and the maximum interval are configurable.
pub struct FSRSParameters {
    /// Model weights; the first four are the initial stabilities for
    /// Again, Hard, Good and Easy.
    pub w: [u64; 17],
    /// Maximum interval in days (unscaled).
    pub maximum_interval: u64,
}

impl FSRSParameters {
    /// Parameter sanity: every weight is positive and at most ten units,
    /// the initial stabilities are at least the minimum stability, the
    /// mean-reversion weight and hard penalty are at most one, the easy
    /// bonus is at least one, and the maximum interval is in (0, 36500].
    pub open spec fn wf(&self) -> bool {
        &&& forall|i: int| 0 <= i < 17 ==> 1 <= #[trigger] self.w@[i] <= 10 * SC
        &&& forall|i: int| 0 <= i < 4 ==> MIN_STABILITY <= #[trigger] self.w@[i]
        &&& self.w@[7] <= SC
        &&& self.w@[15] <= SC
        &&& SC <= self.w@[16]
        &&& 1 <= self.maximum_interval <= 36_500
    }
}

/// The default FSRS weights, scaled by `SC`.
pub open spec fn default_w() -> Seq<u64> {
    seq![
        400_000u64, 600_000u64, 2_400_000u64, 5_800_000u64, 4_930_000u64, 940_000u64,
        860_000u64, 10_000u64, 1_490_000u64, 140_000u64, 940_000u64, 2_180_000u64, 50_000u64,
        340_000u64, 1_260_000u64, 290_000u64, 2_610_000u64,
    ]
}

impl Default for FSRSParameters {
    /// The optimized default parameters: the standard weights, 90% target
    /// retention (baked into the retrievability and interval formulas), and
    /// a 100-year maximum interval.
    fn default() -> (r: FSRSParameters)
        ensures
            r.w@ =~= default_w(),
            r.maximum_interval == 36_500,
            r.wf(),
    {
        let r = FSRSParameters {
            w: [
                400_000u64, 600_000u64, 2_400_000u64, 5_800_000u64, 4_930_000u64, 940_000u64,
                860_000u64, 10_000u64, 1_490_000u64, 140_000u64, 940_000u64, 2_180_000u64,
                50_000u64, 340_000u64, 1_260_000u64, 290_000u64, 2_610_000u64,
            ],
            maximum_interval: 36_500,
        };
        proof {
            assert(r.w@ =~= default_w());
            assert forall|i: int| 0 <= i < 17 implies 1 <= #[trigger] r.w@[i] <= 10 * SC by {
                assert(r.w@ =~= default_w());
            }
            assert forall|i: int| 0 <= i < 4 implies MIN_STABILITY <= #[trigger] r.w@[i] by {
                assert(r.w@ =~= default_w());
            }
        }
        r
    }
}

/// The memory state the scheduler keeps per card.
#[derive(Debug, Clone)]
pub struct FSRSState {
    /// Stability: micro-days until recall probability decays to 90%.
    pub stability: u64,
    /// Difficulty, scaled: SC (easiest) to 10·SC (hardest).
    pub difficulty: u64,
    /// Number of reviews (0 = new card).
    pub reps: u32,
    /// Number of lapses (times rated Again after learning).
    pub lapses: u32,
    /// Last review timestamp (Unix seconds).
    pub last_review: Option<i64>,
}

impl FSRSState {
    /// State sanity: once a card has been reviewed its stability and
    /// difficulty are inside the model ranges, lapses never exceed reviews,
    /// and timestamps are in machine range.
    pub open spec fn wf(&self) -> bool {
        &&& self.reps > 0 ==> MIN_STABILITY <= self.stability <= MAX_STABILITY
        &&& self.reps > 0 ==> SC <= self.difficulty <= MAX_DIFFICULTY
        &&& self.lapses <= self.reps
        &&& self.reps <= 1_000_000_000
        &&& match self.last_review {
            Some(t) => -MAX_TIMESTAMP <= t <= MAX_TIMESTAMP,
            None => true,
        }
    }
}

impl Default for FSRSState {
    /// A new card: no stability yet, neutral difficulty, never reviewed.
    fn default() -> (r: FSRSState)
        ensures
            r.stability == 0,
            r.difficulty == 5 * SC,
            r.reps == 0,
            r.lapses == 0,
            r.last_review is None,
            r.wf(),
    {
        FSRSState { stability: 0, difficulty: 5_000_000, reps: 0, lapses: 0, last_review: None }
    }
}

// ----------------------------------------------------------------------
// Retrievability
// ----------------------------------------------------------------------

/// Recall probability (scaled) after `t` micro-days at stability `s`:
/// (1 + (19/81)·t/s)^(-1/2), computed exactly as the integer square root of
/// 81·s·SC²/(81·s + 19·t).
pub open spec fn retrievability_spec(t: int, s: int) -> int {
    if s <= 0 {
        0
    } else {
        sqrt_floor(81 * s * (SC as int) * (SC as int) / (81 * s + 19 * t))
    }
}

/// Calculate retrievability (probability of recall) given elapsed time.
pub fn retrievability(elapsed: u64, stability: u64) -> (r: u64)
    requires
        stability <= MAX_STABILITY,
        elapsed <= MAX_ELAPSED,
    ensures
        r == retrievability_spec(elapsed as int, stability as int),
        r <= SC,
{
    if stability == 0 {
        return 0;
    }
    proof {
        assert(81 * (stability as int) * (SC as int) * (SC as int)
            < 0x4000_0000_0000_0000_0000_0000_0000_0000u128 as int) by (nonlinear_arith)
            requires
                0 < (stability as int) <= (MAX_STABILITY as int),
        ;
        lemma_mul_nonnegative(81 * (stability as int) * (SC as int), SC as int);
    }
    let num: u128 = 81u128 * (stability as u128) * (SC as u128) * (SC as u128);
    let den: u128 = 81u128 * (stability as u128) + 19u128 * (elapsed as u128);
    let q: u128 = num / den;
    proof {
        // q <= SC*SC, because den >= 81*s and num == (81*s)*(SC*SC)
        lemma_div_is_ordered_by_denominator(num as int, 81 * (stability as int), den as int);
        assert(num as int == (SC as int * SC as int) * (81 * (stability as int)))
            by (nonlinear_arith)
            requires
                num as int == 81 * (stability as int) * (SC as int) * (SC as int),
        ;
        lemma_div_by_multiple(SC as int * SC as int, 81 * (stability as int));
        lemma_div_pos_is_pos(num as int, den as int);
    }
    let r = isqrt_u128(q);
    proof {
        // the root of a quotient at most SC*SC is at most SC
        if r as int > SC as int {
            assert((SC as int + 1) * (SC as int + 1) <= (r as int) * (r as int))
                by (nonlinear_arith)
                requires
                    SC as int + 1 <= r as int,
            ;
        }
    }
    r as u64
}

/// Retrievability never grows as elapsed time grows (fixed stability).
pub proof fn lemma_retrievability_antitone(t1: int, t2: int, s: int)
    requires
        0 < s,
        0 <= t1 <= t2,
    ensures
        retrievability_spec(t2, s) <= retrievability_spec(t1, s),
{
    let num = 81 * s * (SC as int) * (SC as int);
    let d1 = 81 * s + 19 * t1;
    let d2 = 81 * s + 19 * t2;
    lemma_mul_nonnegative(81 * s * (SC as int), SC as int);
    lemma_mul_nonnegative(81 * s, SC as int);
    assert(num >= 0);
    lemma_div_is_ordered_by_denominator(num, d1, d2);
    lemma_div_pos_is_pos(num, d2);
    lemma_sqrt_monotone(num / d2, num / d1);
}

/// With no elapsed time, retrievability is exactly 1; so it strictly falls
/// from 1 to exactly 0.9 over one stability of elapsed time. (Pointwise
/// strict decrease between adjacent elapsed values cannot hold of any
/// fixed-precision retrievability; `lemma_retrievability_antitone` gives the
/// non-strict law for all inputs.)
pub proof fn lemma_retrievability_at_zero(s: int)
    requires
        0 < s,
    ensures
        retrievability_spec(0, s) == SC,
        retrievability_spec(0, s) > retrievability_spec(s, s),
{
    assert(81 * s * (SC as int) * (SC as int) == (SC as int * SC as int) * (81 * s))
        by (nonlinear_arith);
    lemma_div_by_multiple(SC as int * SC as int, 81 * s);
    assert(81 * s + 19 * 0 == 81 * s);
    assert(81 * s * (SC as int) * (SC as int) / (81 * s + 19 * 0) == SC as int * SC as int);
    assert(is_sqrt(SC as int * SC as int, SC as int)) by (nonlinear_arith);
    lemma_sqrt_floor_is_sqrt(SC as int * SC as int);
    lemma_sqrt_unique(SC as int * SC as int, SC as int, sqrt_floor(SC as int * SC as int));
    lemma_retrievability_at_stability(s);
}

/// When the elapsed time equals the stability, retrievability is exactly 0.9.
pub proof fn lemma_retrievability_at_stability(s: int)
    requires
        0 < s,
    ensures
        retrievability_spec(s, s) == 900_000,
{
    let num = 81 * s * (SC as int) * (SC as int);
    let den = 81 * s + 19 * s;
    assert(den == 100 * s);
    assert(81 * s * (SC as int) * (SC as int) == 810_000_000_000 * (100 * s)) by (nonlinear_arith);
    lemma_div_by_multiple(810_000_000_000, 100 * s);
    assert(num / den == 810_000_000_000);
    assert(is_sqrt(810_000_000_000, 900_000)) by (nonlinear_arith);
    lemma_sqrt_floor_is_sqrt(810_000_000_000);
    lemma_sqrt_unique(810_000_000_000, 900_000, sqrt_floor(810_000_000_000));
}

// ----------------------------------------------------------------------
// Difficulty
// ----------------------------------------------------------------------

/// Initial difficulty implied by the first rating: w4 + (3-g)·w5, clamped.
pub open spec fn init_difficulty_spec(g: int, w: Seq<u64>) -> int {
    clamp_i(w[4] + (3 - g) * w[5], SC as int, MAX_DIFFICULTY as int)
}

/// Difficulty after a review: shift by the rating, then mean-revert toward
/// the rating's implied difficulty, then clamp into [1, 10] (scaled).
pub open spec fn next_difficulty_spec(d: int, g: int, w: Seq<u64>) -> int {
    let dn = d + (3 - g) * w[6];
    clamp_i(
        (w[7] * init_difficulty_spec(g, w) + (SC - w[7]) * dn) / (SC as int),
        SC as int,
        MAX_DIFFICULTY as int,
    )
}

/// One difficulty update always lands inside [1, 10] (scaled), whatever the
/// incoming difficulty and rating; so any run of consecutive ratings keeps
/// difficulty inside the range.
pub proof fn lemma_difficulty_bounded(d: int, g: int, w: Seq<u64>)
    ensures
        SC <= next_difficulty_spec(d, g, w) <= MAX_DIFFICULTY,
        SC <= init_difficulty_spec(g, w) <= MAX_DIFFICULTY,
{
}

pub fn init_difficulty(params: &FSRSParameters, g: u64) -> (r: u64)
    requires
        params.wf(),
        g <= 3,
    ensures
        r == init_difficulty_spec(g as int, params.w@),
        SC <= r <= MAX_DIFFICULTY,
{
    proof {
        assert(1 <= params.w@[4] <= 10 * SC);
        assert(1 <= params.w@[5] <= 10 * SC);
        assert((3 - g as int) * (params.w@[5] as int) <= 30_000_000) by (nonlinear_arith)
            requires
                (g as int) <= 3,
                (params.w@[5] as int) <= 10_000_000,
        ;
        lemma_mul_nonnegative(3 - g as int, params.w@[5] as int);
    }
    let base: u64 = params.w[4] + (3 - g) * params.w[5];
    if base < SC {
        SC
    } else if base > MAX_DIFFICULTY {
        MAX_DIFFICULTY
    } else {
        base
    }
}

pub fn next_difficulty(params: &FSRSParameters, d: u64, g: u64) -> (r: u64)
    requires
        params.wf(),
        g <= 3,
        SC <= d <= MAX_DIFFICULTY,
    ensures
        r == next_difficulty_spec(d as int, g as int, params.w@),
        SC <= r <= MAX_DIFFICULTY,
{
    proof {
        assert(1 <= params.w@[6] <= 10 * SC);
        assert(params.w@[7] <= SC);
        assert((3 - g as int) * (params.w@[6] as int) <= 30_000_000) by (nonlinear_arith)
            requires
                (g as int) <= 3,
                (params.w@[6] as int) <= 10_000_000,
        ;
        lemma_mul_nonnegative(3 - g as int, params.w@[6] as int);
    }
    let dn: u64 = d + (3 - g) * params.w[6];
    let idf = init_difficulty(params, g);
    proof {
        assert((params.w@[7] as int) * (idf as int) <= 10_000_000_000_000) by (nonlinear_arith)
            requires
                0 <= (params.w@[7] as int) <= (SC as int),
                0 <= (idf as int) <= (MAX_DIFFICULTY as int),
        ;
        assert(((SC - params.w@[7]) as int) * (dn as int) <= 41_000_000_000_000)
            by (nonlinear_arith)
            requires
                0 <= ((SC - params.w@[7]) as int) <= (SC as int),
                0 <= (dn as int) <= 41_000_000,
        ;
        lemma_mul_nonnegative(params.w@[7] as int, idf as int);
        lemma_mul_nonnegative((SC - params.w@[7]) as int, dn as int);
        lemma_div_pos_is_pos(
            (params.w@[7] as int) * (idf as int) + ((SC - params.w@[7]) as int) * (dn as int),
            SC as int,
        );
    }
    let mixed: u64 = ((params.w[7] * idf + (SC - params.w[7]) * dn) / SC) as u64;
    if mixed < SC {
        SC
    } else if mixed > MAX_DIFFICULTY {
        MAX_DIFFICULTY
    } else {
        mixed
    }
}

// ----------------------------------------------------------------------
// Stability updates
// ----------------------------------------------------------------------

/// a·b/SC, saturated at `G_CAP`.
pub open spec fn mul_div_cap_spec(a: int, b: int) -> int {
    let v = a * b / (SC as int);
    if v > G_CAP {
        G_CAP as int
    } else {
        v
    }
}

fn mul_div_cap(a: u64, b: u64) -> (r: u64)
    requires
        a <= G_CAP,
        b <= G_CAP,
    ensures
        r == mul_div_cap_spec(a as int, b as int),
        r <= G_CAP,
{
    proof {
        lemma_mul_nonnegative(a as int, b as int);
        assert((a as int) * (b as int) < 0x100000000000000000000000000000000) by (nonlinear_arith)
            requires
                0 <= (a as int) <= (G_CAP as int),
                0 <= (b as int) <= (G_CAP as int),
        ;
        lemma_div_pos_is_pos((a as int) * (b as int), SC as int);
    }
    let wide: u128 = (a as u128) * (b as u128) / (SC as u128);
    if wide > G_CAP as u128 {
        G_CAP
    } else {
        wide as u64
    }
}

proof fn lemma_mdc_nonneg(a: int, b: int)
    requires
        0 <= a,
        0 <= b,
    ensures
        0 <= mul_div_cap_spec(a, b) <= G_CAP,
{
    lemma_mul_nonnegative(a, b);
    lemma_div_pos_is_pos(a * b, SC as int);
}

proof fn lemma_mdc_identity(a: int)
    requires
        0 <= a <= G_CAP,
    ensures
        mul_div_cap_spec(a, SC as int) == a,
{
    lemma_div_by_multiple(a, SC as int);
}

proof fn lemma_mdc_mono(a: int, b1: int, b2: int)
    requires
        0 <= a,
        0 <= b1 <= b2,
    ensures
        mul_div_cap_spec(a, b1) <= mul_div_cap_spec(a, b2),
{
    assert(a * b1 <= a * b2) by (nonlinear_arith)
        requires
            0 <= a,
            b1 <= b2,
    ;
    lemma_mul_nonnegative(a, b1);
    lemma_div_is_ordered(a * b1, a * b2, SC as int);
}

/// New stability after a successful recall: the growth factor shared by all
/// ratings, multiplied by the hard penalty or easy bonus, saturated, then the
/// result clamped into the model range.
pub open spec fn stability_success_spec(d: int, s: int, r: int, g: int, w: Seq<u64>) -> int {
    let hard = if g == 1 {
        w[15] as int
    } else {
        SC as int
    };
    let easy = if g == 3 {
        w[16] as int
    } else {
        SC as int
    };
    let e8 = exp_mu_spec(w[8] as int);
    let sp = pow_neg_mu_spec(s, w[9] as int);
    let er = exp_mu_spec((SC - r) * w[10] / (SC as int));
    let g0 = mul_div_cap_spec(e8, 11 * SC - d);
    let g1 = mul_div_cap_spec(g0, sp);
    let g2 = mul_div_cap_spec(g1, er - SC);
    let g3 = mul_div_cap_spec(g2, hard);
    let g4 = mul_div_cap_spec(g3, easy);
    clamp_i(s + s * g4 / (SC as int), MIN_STABILITY as int, MAX_STABILITY as int)
}

/// New stability after a lapse: a fraction of the old stability built from
/// the difficulty and retrievability, never exceeding the old stability and
/// never below the minimum.
pub open spec fn stability_failure_spec(d: int, s: int, r: int, w: Seq<u64>) -> int {
    let dp = pow_neg_mu_spec(d, w[12] as int);
    let spw = pow_pos_mu_spec(s + SC, w[13] as int);
    let er = exp_mu_spec((SC - r) * w[14] / (SC as int));
    let f0 = mul_div_cap_spec(w[11] as int, dp);
    let f1 = mul_div_cap_spec(f0, spw - SC);
    let f2 = mul_div_cap_spec(f1, er);
    clamp_i(f2, MIN_STABILITY as int, s)
}

fn exp_arg(r: u64, wi: u64) -> (a: u64)
    requires
        r <= SC,
        wi <= 10 * SC,
    ensures
        a == (SC - r) * (wi as int) / (SC as int),
        a <= 10 * SC,
{
    proof {
        lemma_mul_nonnegative((SC - r) as int, wi as int);
        assert(((SC - r) as int) * (wi as int) <= (10 * SC) as int * (SC as int))
            by (nonlinear_arith)
            requires
                0 <= ((SC - r) as int) <= (SC as int),
                0 <= (wi as int) <= 10 * (SC as int),
        ;
        lemma_muldiv_bound((SC - r) as int, wi as int, SC as int, 10 * SC as int);
        lemma_div_pos_is_pos(((SC - r) as int) * (wi as int), SC as int);
    }
    (((SC - r) as u128 * wi as u128) / (SC as u128)) as u64
}

fn stability_success(params: &FSRSParameters, d: u64, s: u64, r: u64, g: u64) -> (res: u64)
    requires
        params.wf(),
        SC <= d <= MAX_DIFFICULTY,
        MIN_STABILITY <= s <= MAX_STABILITY,
        r <= SC,
        1 <= g <= 3,
    ensures
        res == stability_success_spec(d as int, s as int, r as int, g as int, params.w@),
        MIN_STABILITY <= res <= MAX_STABILITY,
{
    let hard: u64 = if g == 1 {
        params.w[15]
    } else {
        SC
    };
    let easy: u64 = if g == 3 {
        params.w[16]
    } else {
        SC
    };
    let e8 = exp_mu(params.w[8] as i64);
    let sp = pow_neg_mu(s, params.w[9]);
    let arg = exp_arg(r, params.w[10]);
    let er = exp_mu(arg as i64);
    let g0 = mul_div_cap(e8, 11 * SC - d);
    let g1 = mul_div_cap(g0, sp);
    let g2 = mul_div_cap(g1, er - SC);
    let g3 = mul_div_cap(g2, hard);
    let g4 = mul_div_cap(g3, easy);
    proof {
        lemma_mul_nonnegative(s as int, g4 as int);
        assert((s as int) * (g4 as int) < 0x100000000000000000000000000000000)
            by (nonlinear_arith)
            requires
                0 <= (s as int) <= (MAX_STABILITY as int),
                0 <= (g4 as int) <= (G_CAP as int),
        ;
        lemma_div_pos_is_pos((s as int) * (g4 as int), SC as int);
    }
    let delta: u128 = (s as u128) * (g4 as u128) / (SC as u128);
    let grown: u128 = (s as u128) + delta;
    if grown > MAX_STABILITY as u128 {
        MAX_STABILITY
    } else if grown < MIN_STABILITY as u128 {
        MIN_STABILITY
    } else {
        grown as u64
    }
}

fn stability_failure(params: &FSRSParameters, d: u64, s: u64, r: u64) -> (res: u64)
    requires
        params.wf(),
        SC <= d <= MAX_DIFFICULTY,
        MIN_STABILITY <= s <= MAX_STABILITY,
        r <= SC,
    ensures
        res == stability_failure_spec(d as int, s as int, r as int, params.w@),
        MIN_STABILITY <= res <= s,
{
    let dp = pow_neg_mu(d, params.w[12]);
    let spw = pow_pos_mu(s + SC, params.w[13]);
    let arg = exp_arg(r, params.w[14]);
    let er = exp_mu(arg as i64);
    let f0 = mul_div_cap(params.w[11], dp);
    let f1 = mul_div_cap(f0, spw - SC);
    let f2 = mul_div_cap(f1, er);
    if f2 > s {
        s
    } else if f2 < MIN_STABILITY {
        MIN_STABILITY
    } else {
        f2
    }
}

/// Easy never yields less stability than Good, and Good never less than
/// Hard, all other inputs held fixed.
pub proof fn lemma_stability_rating_monotone(d: int, s: int, r: int, w: Seq<u64>)
    requires
        w.len() == 17,
        1 <= w[15] <= SC,
        SC <= w[16] <= 10 * SC,
        SC <= d <= MAX_DIFFICULTY,
        MIN_STABILITY <= s <= MAX_STABILITY,
        0 <= r <= SC,
    ensures
        stability_success_spec(d, s, r, 1, w) <= stability_success_spec(d, s, r, 2, w),
        stability_success_spec(d, s, r, 2, w) <= stability_success_spec(d, s, r, 3, w),
{
    let e8 = exp_mu_spec(w[8] as int);
    let sp = pow_neg_mu_spec(s, w[9] as int);
    let arg = (SC - r) * w[10] / (SC as int);
    let er = exp_mu_spec(arg);
    lemma_exp_nonneg(w[8] as int);
    lemma_exp_nonneg(-crate::fixed::scale_by(w[9] as int, crate::fixed::ln_mu_spec(s)));
    lemma_mul_nonnegative(SC - r, w[10] as int);
    lemma_div_pos_is_pos((SC - r) * w[10], SC as int);
    lemma_exp_ge_one_nonneg(arg);
    let g0 = mul_div_cap_spec(e8, 11 * SC - d);
    lemma_mdc_nonneg(e8, 11 * SC - d);
    let g1 = mul_div_cap_spec(g0, sp);
    lemma_mdc_nonneg(g0, sp);
    let g2 = mul_div_cap_spec(g1, er - SC);
    lemma_mdc_nonneg(g1, er - SC);
    lemma_mdc_nonneg(g2, w[15] as int);
    let g3h = mul_div_cap_spec(g2, w[15] as int);
    lemma_mdc_identity(g2);
    lemma_mdc_mono(g2, w[15] as int, SC as int);
    lemma_mdc_identity(g3h);
    lemma_mdc_mono(g2, SC as int, w[16] as int);
    let g4h = mul_div_cap_spec(g3h, SC as int);
    let g4g = mul_div_cap_spec(g2, SC as int);
    let g4e = mul_div_cap_spec(g2, w[16] as int);
    assert(g4h == g3h <= g2);
    assert(g4g == g2);
    assert(g4e >= g2);
    lemma_mdc_nonneg(g2, w[16] as int);
    lemma_grow_monotone(s, g4h, g4g);
    lemma_grow_monotone(s, g4g, g4e);
}

/// The scaled exponential is never negative.
proof fn lemma_exp_nonneg(x: int)
    ensures
        0 <= exp_mu_spec(x) <= EXP_MAX,
{
    let c = clamp_i(x, -(crate::fixed::EXP_CLAMP as int), crate::fixed::EXP_CLAMP as int);
    if c >= 0 {
        crate::fixed::lemma_exp_pos_bounds(c);
    } else {
        crate::fixed::lemma_exp_pos_bounds(-c);
        lemma_div_pos_is_pos(SC as int * SC as int, crate::fixed::exp_pos_mu(-c));
        lemma_div_is_ordered_by_denominator(SC as int * SC as int, SC as int, crate::fixed::exp_pos_mu(-c));
        lemma_div_by_multiple(SC as int, SC as int);
    }
}

proof fn lemma_exp_ge_one_nonneg(x: int)
    requires
        x >= 0,
    ensures
        exp_mu_spec(x) >= SC,
        exp_mu_spec(x) - SC >= 0,
{
    crate::fixed::lemma_exp_pos_bounds(clamp_i(x, -(crate::fixed::EXP_CLAMP as int), crate::fixed::EXP_CLAMP as int));
}

proof fn lemma_grow_monotone(s: int, ga: int, gb: int)
    requires
        MIN_STABILITY <= s <= MAX_STABILITY,
        0 <= ga <= gb,
    ensures
        clamp_i(s + s * ga / (SC as int), MIN_STABILITY as int, MAX_STABILITY as int)
            <= clamp_i(s + s * gb / (SC as int), MIN_STABILITY as int, MAX_STABILITY as int),
{
    assert(s * ga <= s * gb) by (nonlinear_arith)
        requires
            0 <= s,
            ga <= gb,
    ;
    lemma_mul_nonnegative(s, ga);
    lemma_div_is_ordered(s * ga, s * gb, SC as int);
}

/// A lapse never raises stability, never drops it below the minimum, and the
/// next interval it yields is never longer than the interval the old
/// stability would have yielded.
pub proof fn lemma_failure_resets_stability(d: int, s: int, r: int, w: Seq<u64>, mi: int)
    requires
        MIN_STABILITY <= s,
        1 <= mi,
    ensures
        stability_failure_spec(d, s, r, w) <= s,
        MIN_STABILITY <= stability_failure_spec(d, s, r, w),
        interval_spec(stability_failure_spec(d, s, r, w), mi) <= interval_spec(s, mi),
{
    lemma_interval_monotone(stability_failure_spec(d, s, r, w), s, mi);
}

// ----------------------------------------------------------------------
// Intervals
// ----------------------------------------------------------------------

/// The interval in whole days that reaches the 90% retention target: the
/// stability rounded to days, clamped into [1, maximum_interval]. (With the
/// 0.9 target, the FSRS interval formula reduces to the stability itself.)
pub open spec fn interval_spec(s: int, max_interval: int) -> int {
    clamp_i((s + SC / 2) / (SC as int), 1, max_interval)
}

/// Calculate the interval (in days) from stability to achieve target retention.
pub fn stability_to_interval(stability: u64, maximum_interval: u64) -> (r: u64)
    requires
        stability <= MAX_STABILITY,
        1 <= maximum_interval,
    ensures
        r == interval_spec(stability as int, maximum_interval as int),
        1 <= r <= maximum_interval,
{
    proof {
        lemma_div_pos_is_pos(stability as int + 500_000, SC as int);
    }
    let days: u64 = (stability + SC / 2) / SC;
    if days < 1 {
        1
    } else if days > maximum_interval {
        maximum_interval
    } else {
        days
    }
}

/// A shorter stability never yields a longer interval.
pub proof fn lemma_interval_monotone(s1: int, s2: int, mi: int)
    requires
        0 <= s1 <= s2,
        1 <= mi,
    ensures
        interval_spec(s1, mi) <= interval_spec(s2, mi),
{
    lemma_div_is_ordered(s1 + SC / 2, s2 + SC / 2, SC as int);
}

// ----------------------------------------------------------------------
// The scheduler itself
// ----------------------------------------------------------------------

/// Elapsed time between the last review and `now`, in micro-days (0 when the
/// card was never reviewed or the clock went backwards).
pub open spec fn elapsed_mu_spec(now: int, last: Option<i64>) -> int {
    match last {
        None => 0,
        Some(t) => if now > t {
            (now - t) * (SC as int) / 86_400
        } else {
            0
        },
    }
}

/// The w-sequence in effect: the given parameters or the defaults.
pub open spec fn params_w_spec(params: Option<&FSRSParameters>) -> Seq<u64> {
    match params {
        Some(p) => p.w@,
        None => default_w(),
    }
}

/// The maximum interval in effect: the given parameters or the default.
pub open spec fn params_mi_spec(params: Option<&FSRSParameters>) -> int {
    match params {
        Some(p) => p.maximum_interval as int,
        None => 36_500,
    }
}

/// The whole scheduling step as one spec-level function: the new memory
/// state, the granted interval, and the next due time, for a given state,
/// rating index, weights, maximum interval, and clock.
pub open spec fn schedule_spec(
    st: FSRSState,
    g: int,
    w: Seq<u64>,
    mi: int,
    now: int,
) -> ScheduleOutcome {
    let elapsed = elapsed_mu_spec(now, st.last_review);
    let rr = retrievability_spec(elapsed, st.stability as int);
    let ns = if st.reps == 0 {
        w[g] as int
    } else if g == 0 {
        stability_failure_spec(st.difficulty as int, st.stability as int, rr, w)
    } else {
        stability_success_spec(st.difficulty as int, st.stability as int, rr, g, w)
    };
    let nd = if st.reps == 0 {
        init_difficulty_spec(g, w)
    } else {
        next_difficulty_spec(st.difficulty as int, g, w)
    };
    let nl = if st.reps == 0 {
        if g == 0 {
            1int
        } else {
            0int
        }
    } else if g == 0 {
        st.lapses + 1
    } else {
        st.lapses as int
    };
    let ivl = interval_spec(ns, mi);
    ScheduleOutcome {
        interval_days: ivl as u64,
        state: FSRSState {
            stability: ns as u64,
            difficulty: nd as u64,
            reps: (st.reps + 1) as u32,
            lapses: nl as u32,
            last_review: Some(now as i64),
        },
        next_review: (now + ivl * 86_400) as i64,
    }
}

/// The scheduler's full outcome: the interval granted, the new memory state,
/// and the next due timestamp.
pub struct ScheduleOutcome {
    /// Interval in whole days (unscaled).
    pub interval_days: u64,
    /// The card's next memory state; `last_review` is set to `now`.
    pub state: FSRSState,
    /// `now` plus the interval, in Unix seconds.
    pub next_review: i64,
}

fn elapsed_mu(now: i64, last: &Option<i64>) -> (e: u64)
    requires
        -MAX_TIMESTAMP <= now <= MAX_TIMESTAMP,
        match last {
            Some(t) => -MAX_TIMESTAMP <= *t <= MAX_TIMESTAMP,
            None => true,
        },
    ensures
        e == elapsed_mu_spec(now as int, *last),
        e <= MAX_ELAPSED,
{
    match last {
        None => 0,
        Some(t) => {
            if now > *t {
                let secs: u64 = (now - *t) as u64;
                proof {
                    lemma_mul_nonnegative(secs as int, SC as int);
                    assert((secs as int) * (SC as int) <= 16_800_000_000_000 * (SC as int))
                        by (nonlinear_arith)
                        requires
                            0 <= (secs as int) <= 16_800_000_000_000,
                    ;
                    assert((secs as int) * (SC as int) <= (MAX_ELAPSED as int) * 86_400)
                        by (nonlinear_arith)
                        requires
                            0 <= (secs as int) <= 16_800_000_000_000,
                    ;
                    lemma_muldiv_bound(secs as int, SC as int, 86_400, MAX_ELAPSED as int);
                    lemma_div_pos_is_pos((secs as int) * (SC as int), 86_400);
                }
                (((secs as u128) * (SC as u128)) / 86_400u128) as u64
            } else {
                0
            }
        },
    }
}

/// One review step of the memory model.
///
/// Pure in all inputs: the caller supplies the clock. For every rating the
/// returned interval lies in [1, maximum_interval] and the next due time is
/// strictly after `now`; a first review sets the lapse count to one exactly
/// when the rating is Again; on later reviews the difficulty and stability
/// updates are pinned to the spec formulas above.
pub fn calculate_fsrs(
    state: &FSRSState,
    rating: ReviewRating,
    params: Option<&FSRSParameters>,
    now: i64,
) -> (r: ScheduleOutcome)
    requires
        state.wf(),
        state.reps < 1_000_000_000,
        match params {
            Some(p) => p.wf(),
            None => true,
        },
        -MAX_TIMESTAMP <= now <= MAX_TIMESTAMP,
    ensures
        ({
            let w = params_w_spec(params);
            let mi = params_mi_spec(params);
            let g = spec_rating_index(rating);
            let elapsed = elapsed_mu_spec(now as int, state.last_review);
            let rr = retrievability_spec(elapsed, state.stability as int);
            &&& r.state.reps == state.reps + 1
            &&& r.state.last_review == Some(now)
            &&& (state.reps == 0 ==> {
                &&& r.state.stability == w[g]
                &&& r.state.difficulty == init_difficulty_spec(g, w)
                &&& r.state.lapses == (if g == 0 { 1int } else { 0int })
            })
            &&& (state.reps > 0 ==> {
                &&& r.state.difficulty == next_difficulty_spec(state.difficulty as int, g, w)
                &&& (g == 0 ==> r.state.stability == stability_failure_spec(
                    state.difficulty as int, state.stability as int, rr, w)
                    && r.state.lapses == state.lapses + 1)
                &&& (g != 0 ==> r.state.stability == stability_success_spec(
                    state.difficulty as int, state.stability as int, rr, g, w)
                    && r.state.lapses == state.lapses)
            })
            &&& r.interval_days == interval_spec(r.state.stability as int, mi)
            &&& 1 <= r.interval_days <= mi
            &&& r.next_review == now + r.interval_days * 86_400
            &&& r.next_review > now
            &&& r.state.wf()
            &&& r == schedule_spec(*state, g, w, mi, now as int)
        }),
{
    let def = FSRSParameters::default();
    let p: &FSRSParameters = match params {
        Some(p) => p,
        None => &def,
    };
    proof {
        assert(p.w@ =~= params_w_spec(params));
        assert(p.maximum_interval as int == params_mi_spec(params));
    }
    let g = rating.index();
    let elapsed = elapsed_mu(now, &state.last_review);

    let (new_stability, new_difficulty, new_lapses): (u64, u64, u32) = if state.reps == 0 {
        let s0 = p.w[g as usize];
        let d0 = init_difficulty(p, g);
        let l0: u32 = if g == 0 {
            1
        } else {
            0
        };
        (s0, d0, l0)
    } else {
        let rr = retrievability(elapsed, state.stability);
        let nd = next_difficulty(p, state.difficulty, g);
        if g == 0 {
            let ns = stability_failure(p, state.difficulty, state.stability, rr);
            (ns, nd, state.lapses + 1)
        } else {
            let ns = stability_success(p, state.difficulty, state.stability, rr, g);
            (ns, nd, state.lapses)
        }
    };

    let interval = stability_to_interval(new_stability, p.maximum_interval);
    let next_review: i64 = now + (interval as i64) * 86_400;
    ScheduleOutcome {
        interval_days: interval,
        state: FSRSState {
            stability: new_stability,
            difficulty: new_difficulty,
            reps: state.reps + 1,
            lapses: new_lapses,
            last_review: Some(now),
        },
        next_review,
    }
}



/// Retrievability is a scaled probability: always in [0, SC].
pub proof fn lemma_retrievability_bounds(t: int, s: int)
    requires
        0 <= t,
        0 < s,
    ensures
        0 <= retrievability_spec(t, s) <= SC,
{
    let num = 81 * s * (SC as int) * (SC as int);
    let den = 81 * s + 19 * t;
    lemma_mul_nonnegative(81 * s * (SC as int), SC as int);
    lemma_mul_nonnegative(81 * s, SC as int);
    lemma_div_pos_is_pos(num, den);
    lemma_div_is_ordered_by_denominator(num, 81 * s, den);
    assert(num == (SC as int * SC as int) * (81 * s)) by (nonlinear_arith)
        requires
            num == 81 * s * (SC as int) * (SC as int),
    ;
    lemma_div_by_multiple(SC as int * SC as int, 81 * s);
    let q = num / den;
    lemma_sqrt_floor_is_sqrt(q);
    let r = sqrt_floor(q);
    if r > SC {
        assert((SC as int + 1) * (SC as int + 1) <= r * r) by (nonlinear_arith)
            requires
                SC as int + 1 <= r,
        ;
    }
}

/// For a reviewed card, Easy never schedules less stability than Good, and
/// Good never less than Hard, all other inputs (state, weights, clock) held
/// fixed; the granted intervals are ordered the same way.
pub proof fn lemma_schedule_rating_monotone(st: FSRSState, w: Seq<u64>, mi: int, now: int)
    requires
        st.wf(),
        st.reps > 0,
        w.len() == 17,
        1 <= w[15] <= SC,
        SC <= w[16] <= 10 * SC,
        1 <= mi,
    ensures
        schedule_spec(st, 1, w, mi, now).state.stability <= schedule_spec(
            st,
            2,
            w,
            mi,
            now,
        ).state.stability,
        schedule_spec(st, 2, w, mi, now).state.stability <= schedule_spec(
            st,
            3,
            w,
            mi,
            now,
        ).state.stability,
        schedule_spec(st, 1, w, mi, now).interval_days <= schedule_spec(
            st,
            2,
            w,
            mi,
            now,
        ).interval_days,
        schedule_spec(st, 2, w, mi, now).interval_days <= schedule_spec(
            st,
            3,
            w,
            mi,
            now,
        ).interval_days,
{
    let elapsed = elapsed_mu_spec(now, st.last_review);
    let rr = retrievability_spec(elapsed, st.stability as int);
    assert(elapsed >= 0) by {
        match st.last_review {
            None => {},
            Some(t) => {
                if now > t {
                    lemma_mul_nonnegative(now - t, SC as int);
                    lemma_div_pos_is_pos((now - t) * (SC as int), 86_400);
                }
            },
        }
    }
    lemma_retrievability_bounds(elapsed, st.stability as int);
    lemma_stability_rating_monotone(st.difficulty as int, st.stability as int, rr, w);
    let s1 = stability_success_spec(st.difficulty as int, st.stability as int, rr, 1, w);
    let s2 = stability_success_spec(st.difficulty as int, st.stability as int, rr, 2, w);
    let s3 = stability_success_spec(st.difficulty as int, st.stability as int, rr, 3, w);
    lemma_interval_monotone(s1, s2, mi);
    lemma_interval_monotone(s2, s3, mi);
}

/// For a reviewed card, rating Again never raises stability above its
/// pre-review value, and the granted interval is never longer than the one
/// the pre-review stability would grant.
pub proof fn lemma_schedule_again_lowers(st: FSRSState, w: Seq<u64>, mi: int, now: int)
    requires
        st.wf(),
        st.reps > 0,
        1 <= mi,
    ensures
        schedule_spec(st, 0, w, mi, now).state.stability <= st.stability,
        MIN_STABILITY <= schedule_spec(st, 0, w, mi, now).state.stability,
        schedule_spec(st, 0, w, mi, now).interval_days as int <= interval_spec(
            st.stability as int,
            mi,
        ),
        schedule_spec(st, 0, w, mi, now).state.lapses == st.lapses + 1,
{
    let elapsed = elapsed_mu_spec(now, st.last_review);
    let rr = retrievability_spec(elapsed, st.stability as int);
    lemma_failure_resets_stability(st.difficulty as int, st.stability as int, rr, w, mi);
}

// ----------------------------------------------------------------------
// Backward-compatible SM-2 style interface
// ----------------------------------------------------------------------

/// The legacy ease factor derived from a difficulty: 2.5 - (d-1)·0.17,
/// clamped into [1.3, 3.0] (scaled). Informational only: it never feeds back
/// into scheduling.
pub open spec fn ease_factor_spec(d: int) -> int {
    clamp_i(2_500_000 - (d - SC) * 17 / 100, 1_300_000, 3_000_000)
}

/// Map a difficulty back to the legacy ease-factor scale.
pub fn ease_factor_from_difficulty(d: u64) -> (r: u64)
    requires
        SC <= d <= MAX_DIFFICULTY,
    ensures
        r == ease_factor_spec(d as int),
        1_300_000 <= r <= 3_000_000,
{
    proof {
        lemma_mul_nonnegative((d - SC) as int, 17);
        lemma_div_pos_is_pos(((d - SC) as int) * 17, 100);
        lemma_muldiv_bound((d - SC) as int, 17, 100, 1_530_000);
    }
    let discount: u64 = (d - SC) * 17 / 100;
    let raw: u64 = 2_500_000 - discount;
    if raw < 1_300_000 {
        1_300_000
    } else if raw > 3_000_000 {
        3_000_000
    } else {
        raw
    }
}

/// The FSRS state implied by legacy SM-2 inputs: the ease factor maps to a
/// difficulty (inverted scale), the interval estimates a stability, and the
/// last review is placed one interval in the past.
pub open spec fn sm2_state_spec(interval: int, ef: int, reps: int, now: int) -> FSRSState {
    let efc = clamp_i(ef, 1_300_000, 3_000_000);
    let d = clamp_i((2_500_000 - efc) * 100 / 17 + SC, SC as int, MAX_DIFFICULTY as int);
    let s = if reps == 0 {
        0
    } else {
        clamp_i(interval * (SC as int) * 200 / 21, MIN_STABILITY as int, MAX_STABILITY as int)
    };
    FSRSState {
        stability: s as u64,
        difficulty: d as u64,
        reps: reps as u32,
        lapses: 0,
        last_review: if interval > 0 {
            Some((now - interval * 86_400) as i64)
        } else {
            None
        },
    }
}

/// Simplified interface matching the older SM-2 signature: maps the ease
/// factor and interval into FSRS state, schedules with the default
/// parameters, and maps the new difficulty back to an ease factor.
/// Returns (new_interval, new_ease_factor, new_repetitions, next_review).
pub fn calculate_sm2(
    current_interval: u64,
    current_ease_factor: u64,
    current_repetitions: u32,
    rating: ReviewRating,
    now: i64,
) -> (r: (u64, u64, u32, i64))
    requires
        current_interval <= 36_500,
        current_repetitions < 1_000_000_000,
        current_ease_factor <= 100_000_000,
        -MAX_TIMESTAMP + 4_000_000_000 <= now <= MAX_TIMESTAMP,
    ensures
        ({
            let st = sm2_state_spec(
                current_interval as int,
                current_ease_factor as int,
                current_repetitions as int,
                now as int,
            );
            let g = spec_rating_index(rating);
            let elapsed = elapsed_mu_spec(now as int, st.last_review);
            let rr = retrievability_spec(elapsed, st.stability as int);
            let ns = if st.reps == 0 {
                default_w()[g] as int
            } else if g == 0 {
                stability_failure_spec(st.difficulty as int, st.stability as int, rr, default_w())
            } else {
                stability_success_spec(
                    st.difficulty as int,
                    st.stability as int,
                    rr,
                    g,
                    default_w(),
                )
            };
            let nd = if st.reps == 0 {
                init_difficulty_spec(g, default_w())
            } else {
                next_difficulty_spec(st.difficulty as int, g, default_w())
            };
            &&& r.0 == interval_spec(ns, 36_500)
            &&& r.1 == ease_factor_spec(nd)
            &&& r.2 == current_repetitions + 1
            &&& r.3 == now + r.0 * 86_400
            &&& 1 <= r.0 <= 36_500
            &&& 1_300_000 <= r.1 <= 3_000_000
            &&& r.3 > now
        }),
{
    let efc: u64 = if current_ease_factor < 1_300_000 {
        1_300_000
    } else if current_ease_factor > 3_000_000 {
        3_000_000
    } else {
        current_ease_factor
    };
    let difficulty: u64 = if efc > 2_500_000 {
        proof {
            assert((2_500_000 - (efc as int)) * 100 < 0) by (nonlinear_arith)
                requires
                    (efc as int) > 2_500_000,
            ;
            vstd::arithmetic::div_mod::lemma_div_is_ordered(
                (2_500_000 - (efc as int)) * 100,
                0,
                17,
            );
        }
        SC
    } else {
        proof {
            lemma_mul_nonnegative((2_500_000 - efc) as int, 100);
            lemma_div_pos_is_pos(((2_500_000 - efc) as int) * 100, 17);
            lemma_muldiv_bound((2_500_000 - efc) as int, 100, 17, 7_058_824);
        }
        let diff_raw: u64 = (2_500_000 - efc) * 100 / 17 + SC;
        if diff_raw < SC {
            SC
        } else if diff_raw > MAX_DIFFICULTY {
            MAX_DIFFICULTY
        } else {
            diff_raw
        }
    };
    let stability: u64 = if current_repetitions == 0 {
        0
    } else {
        proof {
            lemma_mul_nonnegative(current_interval as int, SC as int);
            lemma_mul_nonnegative((current_interval as int) * (SC as int), 200);
            assert((current_interval as int) * (SC as int) * 200
                <= 7_300_000_000_000_000_000) by (nonlinear_arith)
                requires
                    0 <= (current_interval as int) <= 36_500,
            ;
            lemma_div_pos_is_pos((current_interval as int) * (SC as int) * 200, 21);
        }
        let est: u64 = ((current_interval as u128) * (SC as u128) * 200u128 / 21u128) as u64;
        if est < MIN_STABILITY {
            MIN_STABILITY
        } else if est > MAX_STABILITY {
            MAX_STABILITY
        } else {
            est
        }
    };
    let last_review: Option<i64> = if current_interval > 0 {
        Some(now - (current_interval as i64) * 86_400)
    } else {
        None
    };
    let st = FSRSState {
        stability,
        difficulty,
        reps: current_repetitions,
        lapses: 0,
        last_review,
    };
    proof {
        assert(st == sm2_state_spec(
            current_interval as int,
            current_ease_factor as int,
            current_repetitions as int,
            now as int,
        ));
    }
    let out = calculate_fsrs(&st, rating, None, now);
    let new_ease = ease_factor_from_difficulty(out.state.difficulty);
    (out.interval_days, new_ease, out.state.reps, out.next_review)
}

} // verus!

