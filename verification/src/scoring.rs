//! Subtask scoring: the rules that turn a list of test-case verdicts into a
//! subtask score, a subtask verdict, and resource-usage summaries.
//!
//! The partial-credit rule (`GroupMul`) is defined over exact rational
//! arithmetic: with `n` test cases and subtask maximum `m`, each test case
//! contributes the ratio `min(1, score * n / m)`, and the subtask score is
//! `m` times the product of the ratios, rounded half away from zero.
//! Results are saturated into the `i32` score range.

use vstd::prelude::*;
use vstd::arithmetic::power::pow;
use vstd::arithmetic::div_mod::{lemma_div_denominator, lemma_div_pos_is_pos};
use vstd::arithmetic::mul::lemma_mul_strictly_positive;
use crate::bignat::BigNat;
use crate::models::{ProblemIOIConfig, SubtaskConfig, SubtaskResult, SubtaskScoringMethod,
    TestCaseResult, Verdict};

verus! {

/// The nearest value to `x` in the `i32` range.
pub open spec fn clamp_i32(x: int) -> int {
    if x < i32::MIN as int {
        i32::MIN as int
    } else if x > i32::MAX as int {
        i32::MAX as int
    } else {
        x
    }
}

/// The larger of two integers.
pub open spec fn max_i(a: int, b: int) -> int {
    if a >= b {
        a
    } else {
        b
    }
}

/// Sum of the scores of a sequence of test-case results.
pub open spec fn seq_sum_scores(s: Seq<TestCaseResult>) -> int
    decreases s.len(),
{
    if s.len() == 0 {
        0
    } else {
        seq_sum_scores(s.drop_last()) + s.last().score
    }
}

/// Largest time used among the results; 0 when there are none.
pub open spec fn seq_max_time(s: Seq<TestCaseResult>) -> int
    decreases s.len(),
{
    if s.len() == 0 {
        0
    } else if s.len() == 1 {
        s[0].time_used as int
    } else {
        max_i(seq_max_time(s.drop_last()), s.last().time_used as int)
    }
}

/// Largest memory used among the results; 0 when there are none.
pub open spec fn seq_max_memory(s: Seq<TestCaseResult>) -> int
    decreases s.len(),
{
    if s.len() == 0 {
        0
    } else if s.len() == 1 {
        s[0].memory_used as int
    } else {
        max_i(seq_max_memory(s.drop_last()), s.last().memory_used as int)
    }
}

/// Whether every result in the sequence is `Accepted`.
pub open spec fn all_accepted(s: Seq<TestCaseResult>) -> bool {
    forall|i: int| 0 <= i < s.len() ==> s[i].verdict == Verdict::Accepted
}

/// The verdict of the first result, in input order, that is not `Accepted`.
pub open spec fn first_non_accepted(s: Seq<TestCaseResult>) -> Option<Verdict>
    decreases s.len(),
{
    if s.len() == 0 {
        None
    } else if s[0].verdict != Verdict::Accepted {
        Some(s[0].verdict)
    } else {
        first_non_accepted(s.drop_first())
    }
}

/// The scores of the results, as mathematical integers.
pub open spec fn scores_of(s: Seq<TestCaseResult>) -> Seq<int> {
    Seq::new(s.len(), |i: int| s[i].score as int)
}

/// One ratio numerator of the partial-credit product: `min(score * n, m)`,
/// so that the ratio itself is `min(1, score * n / m)`.
pub open spec fn gm_factor(score: int, n: int, m: int) -> int {
    if score * n <= m {
        score * n
    } else {
        m
    }
}

/// Product of the ratio numerators over all scores.
pub open spec fn gm_numerator(scores: Seq<int>, n: int, m: int) -> int
    decreases scores.len(),
{
    if scores.len() == 0 {
        1
    } else {
        gm_numerator(scores.drop_last(), n, m) * gm_factor(scores.last(), n, m)
    }
}

/// `p / d` rounded half away from zero, for a positive divisor.
pub open spec fn round_half_div(p: int, d: int) -> int {
    if p >= 0 {
        (2 * p + d) / (2 * d)
    } else {
        -((2 * (-p) + d) / (2 * d))
    }
}

/// The partial-credit subtask score: `m * product(min(1, score_i * n / m))`
/// rounded half away from zero, saturated into the `i32` range; 0 when the
/// per-test maximum `m / n` is not positive.
pub open spec fn group_mul_score(scores: Seq<int>, m: int) -> int {
    if m <= 0 {
        0
    } else {
        clamp_i32(
            round_half_div(
                gm_numerator(scores, scores.len() as int, m),
                pow(m, (scores.len() - 1) as nat),
            ),
        )
    }
}

/// The score of one subtask, given the results that belong to it.
pub open spec fn subtask_score(s: Seq<TestCaseResult>, cfg: SubtaskConfig) -> int {
    if s.len() == 0 {
        0
    } else {
        match cfg.scoring_method {
            SubtaskScoringMethod::Sum => clamp_i32(seq_sum_scores(s)),
            SubtaskScoringMethod::GroupMin => if all_accepted(s) {
                cfg.max_score as int
            } else {
                0
            },
            SubtaskScoringMethod::GroupMul => group_mul_score(scores_of(s), cfg.max_score as int),
        }
    }
}

/// The verdict of one subtask, given its results and its computed score.
pub open spec fn subtask_verdict(s: Seq<TestCaseResult>, score: int) -> Verdict {
    if s.len() == 0 {
        Verdict::NoData
    } else if all_accepted(s) {
        Verdict::Accepted
    } else if score > 0 {
        Verdict::PartiallyCorrect
    } else {
        match first_non_accepted(s) {
            Some(v) => v,
            None => Verdict::Unknown,
        }
    }
}

/// The results whose test-case id belongs to the given id set, in input
/// order.
pub open spec fn matching_results(s: Seq<TestCaseResult>, ids: Seq<i32>) -> Seq<TestCaseResult>
    decreases s.len(),
{
    if s.len() == 0 {
        Seq::empty()
    } else if ids.contains(s.last().test_case_id) {
        matching_results(s.drop_last(), ids).push(s.last())
    } else {
        matching_results(s.drop_last(), ids)
    }
}

/// Whether `r` is the subtask result derived from `tcs` for the subtask
/// configuration `cfg`.
pub open spec fn is_subtask_result_for(r: SubtaskResult, tcs: Seq<TestCaseResult>, cfg: SubtaskConfig) -> bool {
    let f = matching_results(tcs, cfg.test_case_ids@);
    &&& r.subtask_id == cfg.id
    &&& r.subtask_name == cfg.name
    &&& r.max_score == cfg.max_score
    &&& r.score as int == subtask_score(f, cfg)
    &&& r.verdict == subtask_verdict(f, r.score as int)
    &&& r.time_used as int == seq_max_time(f)
    &&& r.memory_used as int == seq_max_memory(f)
}

/// Sum of the scores of a sequence of subtask results.
pub open spec fn sum_subtask_scores(s: Seq<SubtaskResult>) -> int
    decreases s.len(),
{
    if s.len() == 0 {
        0
    } else {
        sum_subtask_scores(s.drop_last()) + s.last().score
    }
}

/// Total over a list of subtask configurations of the score that `tcs`
/// earns on each.
pub open spec fn total_over_subtasks(tcs: Seq<TestCaseResult>, cfgs: Seq<SubtaskConfig>) -> int
    decreases cfgs.len(),
{
    if cfgs.len() == 0 {
        0
    } else {
        total_over_subtasks(tcs, cfgs.drop_last()) + subtask_score(
            matching_results(tcs, cfgs.last().test_case_ids@),
            cfgs.last(),
        )
    }
}

/// The total a submission earns from its test-case results under a
/// configuration: the subtask total when subtask mode is on and subtasks
/// exist, the flat sum of test-case scores otherwise.
pub open spec fn total_from_test_cases(tcs: Seq<TestCaseResult>, config: ProblemIOIConfig) -> int {
    if config.subtask_enabled && config.subtasks@.len() > 0 {
        clamp_i32(total_over_subtasks(tcs, config.subtasks@))
    } else {
        clamp_i32(seq_sum_scores(tcs))
    }
}

/// The verdict of the first subtask result that is neither `Accepted` nor
/// `NoData`.
pub open spec fn first_bad_subtask(s: Seq<SubtaskResult>) -> Option<Verdict>
    decreases s.len(),
{
    if s.len() == 0 {
        None
    } else if s[0].verdict != Verdict::Accepted && s[0].verdict != Verdict::NoData {
        Some(s[0].verdict)
    } else {
        first_bad_subtask(s.drop_first())
    }
}

/// The overall verdict of a submission from its subtask results and total.
pub open spec fn overall_verdict(rs: Seq<SubtaskResult>, total: int, max: int) -> Verdict {
    if rs.len() == 0 {
        Verdict::Unknown
    } else if total >= max {
        Verdict::Accepted
    } else if total > 0 {
        Verdict::PartiallyCorrect
    } else {
        match first_bad_subtask(rs) {
            Some(v) => v,
            None => Verdict::WrongAnswer,
        }
    }
}

proof fn lemma_first_non_accepted_push(s: Seq<TestCaseResult>, x: TestCaseResult)
    ensures
        first_non_accepted(s.push(x)) == match first_non_accepted(s) {
            Some(v) => Some(v),
            None => if x.verdict != Verdict::Accepted {
                Some(x.verdict)
            } else {
                None
            },
        },
    decreases s.len(),
{
    if s.len() == 0 {
        assert(s.push(x)[0] == x);
        assert(s.push(x).drop_first() =~= Seq::<TestCaseResult>::empty());
        assert(first_non_accepted(s.push(x).drop_first()) is None);
        assert(first_non_accepted(s) is None);
    } else {
        assert(s.push(x).drop_first() =~= s.drop_first().push(x));
        assert(s.push(x)[0] == s[0]);
        lemma_first_non_accepted_push(s.drop_first(), x);
        if s[0].verdict != Verdict::Accepted {
            assert(first_non_accepted(s.push(x)) == Some(s[0].verdict));
            assert(first_non_accepted(s) == Some(s[0].verdict));
        } else {
            assert(first_non_accepted(s.push(x)) == first_non_accepted(s.drop_first().push(x)));
            assert(first_non_accepted(s) == first_non_accepted(s.drop_first()));
        }
    }
}

proof fn lemma_first_non_accepted_none(s: Seq<TestCaseResult>)
    ensures
        (first_non_accepted(s) is None) <==> all_accepted(s),
    decreases s.len(),
{
    if s.len() > 0 {
        lemma_first_non_accepted_none(s.drop_first());
        if all_accepted(s) {
            assert(all_accepted(s.drop_first()));
        }
        if all_accepted(s.drop_first()) && s[0].verdict == Verdict::Accepted {
            assert forall|i: int| 0 <= i < s.len() implies s[i].verdict
                == Verdict::Accepted by {
                if i > 0 {
                    assert(s.drop_first()[i - 1].verdict == Verdict::Accepted);
                }
            }
        }
    }
}

proof fn lemma_first_bad_subtask_push(s: Seq<SubtaskResult>, x: SubtaskResult)
    ensures
        first_bad_subtask(s.push(x)) == match first_bad_subtask(s) {
            Some(v) => Some(v),
            None => if x.verdict != Verdict::Accepted && x.verdict != Verdict::NoData {
                Some(x.verdict)
            } else {
                None
            },
        },
    decreases s.len(),
{
    if s.len() == 0 {
        assert(s.push(x)[0] == x);
        assert(s.push(x).drop_first() =~= Seq::<SubtaskResult>::empty());
        assert(first_bad_subtask(s.push(x).drop_first()) is None);
        assert(first_bad_subtask(s) is None);
    } else {
        assert(s.push(x).drop_first() =~= s.drop_first().push(x));
        assert(s.push(x)[0] == s[0]);
        lemma_first_bad_subtask_push(s.drop_first(), x);
        if s[0].verdict != Verdict::Accepted && s[0].verdict != Verdict::NoData {
            assert(first_bad_subtask(s.push(x)) == Some(s[0].verdict));
            assert(first_bad_subtask(s) == Some(s[0].verdict));
        } else {
            assert(first_bad_subtask(s.push(x)) == first_bad_subtask(s.drop_first().push(x)));
            assert(first_bad_subtask(s) == first_bad_subtask(s.drop_first()));
        }
    }
}

pub(crate) proof fn lemma_pow_succ(b: int, e: nat)
    ensures
        pow(b, e + 1) == b * pow(b, e),
{
    vstd::arithmetic::power::lemma_pow1(b);
    vstd::arithmetic::power::lemma_pow_adds(b, 1, e);
}

/// Whether the id list contains the given id.
pub fn ids_contain(ids: &Vec<i32>, x: i32) -> (r: bool)
    ensures
        r == ids@.contains(x),
{
    let mut i: usize = 0;
    while i < ids.len()
        invariant
            i <= ids@.len(),
            forall|k: int| 0 <= k < i ==> ids@[k] != x,
        decreases ids@.len() - i,
    {
        if ids[i] == x {
            return true;
        }
        i = i + 1;
    }
    false
}

/// The test-case results that belong to the given subtask id set.
pub fn filter_matching(tcs: &Vec<TestCaseResult>, ids: &Vec<i32>) -> (out: Vec<TestCaseResult>)
    ensures
        out@ == matching_results(tcs@, ids@),
{
    let mut out: Vec<TestCaseResult> = Vec::new();
    let mut i: usize = 0;
    proof {
        assert(tcs@.take(0) =~= Seq::<TestCaseResult>::empty());
    }
    while i < tcs.len()
        invariant
            i <= tcs@.len(),
            out@ == matching_results(tcs@.take(i as int), ids@),
        decreases tcs@.len() - i,
    {
        let ghost pre = tcs@.take(i as int);
        if ids_contain(ids, tcs[i].test_case_id) {
            out.push(tcs[i].clone());
        }
        i = i + 1;
        proof {
            assert(tcs@.take(i as int).drop_last() =~= pre);
            assert(tcs@.take(i as int).last() == tcs@[i - 1]);
        }
    }
    proof {
        assert(tcs@.take(tcs@.len() as int) =~= tcs@);
    }
    out
}

/// The flat sum of the scores of all results, saturated into `i32`.
pub fn sum_scores_clamped(tcs: &Vec<TestCaseResult>) -> (r: i32)
    ensures
        r as int == clamp_i32(seq_sum_scores(tcs@)),
{
    let mut acc: i128 = 0;
    let mut i: usize = 0;
    proof {
        assert(tcs@.take(0) =~= Seq::<TestCaseResult>::empty());
    }
    while i < tcs.len()
        invariant
            i <= tcs@.len(),
            acc as int == seq_sum_scores(tcs@.take(i as int)),
            -0x80000000 * (i as int) <= acc as int <= 0x80000000 * (i as int),
        decreases tcs@.len() - i,
    {
        let ghost pre = tcs@.take(i as int);
        acc = acc + tcs[i].score as i128;
        i = i + 1;
        proof {
            assert(tcs@.take(i as int).drop_last() =~= pre);
            assert(tcs@.take(i as int).last() == tcs@[i - 1]);
        }
    }
    proof {
        assert(tcs@.take(tcs@.len() as int) =~= tcs@);
    }
    if acc > i32::MAX as i128 {
        i32::MAX
    } else if acc < i32::MIN as i128 {
        i32::MIN
    } else {
        acc as i32
    }
}

/// Score, verdict, and peak resource usage of one subtask, applied to the
/// test-case results that belong to it.
///
/// An empty result set yields score 0 with the sentinel verdict `NoData`.
pub fn calculate_subtask_score(tcs: &Vec<TestCaseResult>, config: &SubtaskConfig) -> (r: (
    i32,
    Verdict,
    i32,
    i32,
))
    ensures
        r.0 as int == subtask_score(tcs@, *config),
        r.1 == subtask_verdict(tcs@, r.0 as int),
        r.2 as int == seq_max_time(tcs@),
        r.3 as int == seq_max_memory(tcs@),
{
    if tcs.len() == 0 {
        return (0, Verdict::NoData, 0, 0);
    }
    let n = tcs.len();

    let mut time_used: i32 = tcs[0].time_used;
    let mut memory_used: i32 = tcs[0].memory_used;
    let mut first_na: Option<Verdict> = if tcs[0].verdict != Verdict::Accepted {
        Some(tcs[0].verdict)
    } else {
        None
    };
    let mut i: usize = 1;
    proof {
        let t1 = tcs@.take(1);
        assert(t1.len() == 1 && t1[0] == tcs@[0]);
        assert(t1.drop_first() =~= Seq::<TestCaseResult>::empty());
        assert(first_non_accepted(t1.drop_first()) is None);
        assert(first_non_accepted(t1) == first_na);
        lemma_first_non_accepted_none(t1);
    }
    while i < n
        invariant
            1 <= i <= n,
            n == tcs@.len(),
            time_used as int == seq_max_time(tcs@.take(i as int)),
            memory_used as int == seq_max_memory(tcs@.take(i as int)),
            first_na == first_non_accepted(tcs@.take(i as int)),
            (first_na is None) <==> all_accepted(tcs@.take(i as int)),
        decreases n - i,
    {
        let ghost pre = tcs@.take(i as int);
        if tcs[i].time_used > time_used {
            time_used = tcs[i].time_used;
        }
        if tcs[i].memory_used > memory_used {
            memory_used = tcs[i].memory_used;
        }
        if first_na.is_none() && tcs[i].verdict != Verdict::Accepted {
            first_na = Some(tcs[i].verdict);
        }
        i = i + 1;
        proof {
            assert(tcs@.take(i as int).drop_last() =~= pre);
            assert(tcs@.take(i as int).last() == tcs@[i - 1]);
            assert(tcs@.take(i as int) =~= pre.push(tcs@[i - 1]));
            lemma_first_non_accepted_push(pre, tcs@[i - 1]);
            lemma_first_non_accepted_none(tcs@.take(i as int));
        }
    }
    proof {
        assert(tcs@.take(n as int) =~= tcs@);
    }

    let score: i32 = match config.scoring_method {
        SubtaskScoringMethod::Sum => sum_scores_clamped(tcs),
        SubtaskScoringMethod::GroupMin => {
            if first_na.is_none() {
                config.max_score
            } else {
                0
            }
        },
        SubtaskScoringMethod::GroupMul => group_mul_clamped(tcs, config.max_score),
    };

    let verdict: Verdict = if first_na.is_none() {
        Verdict::Accepted
    } else if score > 0 {
        Verdict::PartiallyCorrect
    } else {
        match first_na {
            Some(v) => v,
            None => Verdict::Unknown,
        }
    };

    (score, verdict, time_used, memory_used)
}

/// The partial-credit score of a non-empty result set: the subtask maximum
/// scaled by the exact product of per-test completion ratios, rounded half
/// away from zero and saturated into `i32`.
fn group_mul_clamped(tcs: &Vec<TestCaseResult>, max_score: i32) -> (r: i32)
    requires
        tcs@.len() > 0,
    ensures
        r as int == group_mul_score(scores_of(tcs@), max_score as int),
{
    if max_score <= 0 {
        return 0;
    }
    let n = tcs.len();
    let m = max_score;
    let ghost gn = n as int;
    let ghost gm = m as int;

    // signed product of the ratio numerators, as a sign and a magnitude
    let mut mag = BigNat::from_u128(1);
    let mut neg = false;
    let mut i: usize = 0;
    proof {
        assert(scores_of(tcs@.take(0)) =~= Seq::<int>::empty());
    }
    while i < n
        invariant
            i <= n,
            n == tcs@.len(),
            0 < m,
            gn == n as int,
            gm == m as int,
            mag.value() >= 0,
            (if neg {
                -mag.value()
            } else {
                mag.value()
            }) == gm_numerator(scores_of(tcs@.take(i as int)), gn, gm),
        decreases n - i,
    {
        let ghost pre_scores = scores_of(tcs@.take(i as int));
        let ghost old_neg = neg;
        let ghost om = mag.value();
        let ghost old_signed = if neg { -mag.value() } else { mag.value() };
        let s_i = tcs[i].score;
        proof {
            assert(-0x800000000000000000000000 < (s_i as int) * gn && ((s_i as int) * gn)
                < 0x800000000000000000000000) by (nonlinear_arith)
                requires
                    -0x80000000 <= s_i as int <= 0x7fffffff,
                    0 <= gn < 0x10000000000000000,
            ;
        }
        let a: i128 = (s_i as i128) * (n as i128);
        let a_c: i128 = if a <= m as i128 {
            a
        } else {
            m as i128
        };
        proof {
            assert(a as int == (s_i as int) * gn);
            assert(a_c as int == gm_factor(s_i as int, gn, gm));
            mag.lemma_nonneg();
        }
        let factor_mag: u128 = if a_c < 0 {
            neg = !neg;
            (-a_c) as u128
        } else {
            a_c as u128
        };
        let new_mag = mag.mul_small(factor_mag);
        proof {
            let f = a_c as int;
            assert(new_mag.value() == om * (factor_mag as int));
            assert(factor_mag as int == if f < 0 {
                -f
            } else {
                f
            });
            assert((if neg {
                -new_mag.value()
            } else {
                new_mag.value()
            }) == old_signed * f) by (nonlinear_arith)
                requires
                    new_mag.value() == om * (if f < 0 { -f } else { f }),
                    old_signed == if old_neg { -om } else { om },
                    neg == if f < 0 { !old_neg } else { old_neg },
            ;
        }
        mag = new_mag;
        i = i + 1;
        proof {
            assert(scores_of(tcs@.take(i as int)).drop_last() =~= pre_scores);
            assert(scores_of(tcs@.take(i as int)).last() == tcs@[i - 1].score as int);
            assert(gm_numerator(scores_of(tcs@.take(i as int)), gn, gm) == gm_numerator(
                pre_scores,
                gn,
                gm,
            ) * gm_factor(tcs@[i - 1].score as int, gn, gm));
            mag.lemma_nonneg();
        }
    }
    proof {
        assert(tcs@.take(n as int) =~= tcs@);
        assert(scores_of(tcs@.take(n as int)) =~= scores_of(tcs@));
    }
    let ghost p_signed = if neg { -mag.value() } else { mag.value() };

    // denominator: m to the power n - 1
    let mut dbig = BigNat::from_u128(1);
    let mut k: usize = 0;
    proof {
        vstd::arithmetic::power::lemma_pow0(gm);
    }
    while k < n - 1
        invariant
            k <= n - 1,
            n >= 1,
            0 < m,
            gm == m as int,
            dbig.value() == pow(gm, k as nat),
        decreases n - 1 - k,
    {
        let ghost old_d = dbig.value();
        dbig = dbig.mul_small(m as u128);
        k = k + 1;
        proof {
            lemma_pow_succ(gm, (k - 1) as nat);
            assert(pow(gm, k as nat) == gm * pow(gm, (k - 1) as nat));
            assert(old_d * gm == gm * old_d) by (nonlinear_arith);
        }
    }
    let ghost d = pow(gm, (n - 1) as nat);
    proof {
        vstd::arithmetic::power::lemma_pow_positive(gm, (n - 1) as nat);
    }

    // t = 2 * |p| + d, then divide by m, n - 1 times, and finally by 2:
    // this is floor((2|p| + d) / (2 d)), the half-away-from-zero rounding
    // of |p| / d
    let mut t = mag.mul_small(2).add(&dbig);
    let ghost t0 = 2 * mag.value() + d;
    let mut k2: usize = 0;
    proof {
        vstd::arithmetic::power::lemma_pow0(gm);
        assert(t.value() == t0 / pow(gm, 0)) by {
            assert(t0 / 1 == t0) by (nonlinear_arith);
        }
    }
    while k2 < n - 1
        invariant
            k2 <= n - 1,
            n >= 1,
            0 < m,
            gm == m as int,
            t0 == 2 * mag.value() + d,
            mag.value() >= 0,
            d >= 1,
            t.value() == t0 / pow(gm, k2 as nat),
        decreases n - 1 - k2,
    {
        t = t.div_small(m as u64);
        k2 = k2 + 1;
        proof {
            vstd::arithmetic::power::lemma_pow_positive(gm, (k2 - 1) as nat);
            lemma_div_pos_is_pos(t0, pow(gm, (k2 - 1) as nat));
            lemma_div_denominator(t0, pow(gm, (k2 - 1) as nat), gm);
            lemma_pow_succ(gm, (k2 - 1) as nat);
            assert(pow(gm, k2 as nat) == gm * pow(gm, (k2 - 1) as nat));
            assert(pow(gm, (k2 - 1) as nat) * gm == gm * pow(gm, (k2 - 1) as nat))
                by (nonlinear_arith);
        }
    }
    proof {
        vstd::arithmetic::power::lemma_pow_positive(gm, (n - 1) as nat);
        lemma_div_pos_is_pos(t0, d);
    }
    let q = t.div_small(2);
    proof {
        lemma_div_denominator(t0, d, 2);
        assert(q.value() == t0 / (d * 2));
        assert(d * 2 == 2 * d) by (nonlinear_arith);
        lemma_mul_strictly_positive(2, d);
        lemma_div_pos_is_pos(t0, 2 * d);
    }

    if neg {
        let c = q.clamped_low(0x80000000);
        proof {
            assert(p_signed <= 0);
            if p_signed == 0 {
                // a zero product rounds to zero under either sign
                assert(mag.value() == 0);
                assert(t0 == d);
                vstd::arithmetic::div_mod::lemma_basic_div(d, 2 * d);
                assert(t0 / (2 * d) == 0);
                assert(round_half_div(0, d) == (2 * 0 + d) / (2 * d));
                assert((2 * 0 + d) == d);
                assert(round_half_div(p_signed, d) == 0);
            } else {
                assert(-p_signed == mag.value());
                assert(2 * (-p_signed) + d == t0);
                assert(round_half_div(p_signed, d) == -(t0 / (2 * d)));
            }
            assert(clamp_i32(-(t0 / (2 * d))) == -(if t0 / (2 * d) > 0x80000000 {
                0x80000000 as int
            } else {
                t0 / (2 * d)
            }));
        }
        (-(c as i64)) as i32
    } else {
        let c = q.clamped_low(0x7fffffff);
        proof {
            assert(p_signed == mag.value());
            assert(round_half_div(p_signed, d) == t0 / (2 * d));
        }
        c as i32
    }
}

/// The largest time used among the results; 0 when there are none.
pub fn max_time_used(tcs: &Vec<TestCaseResult>) -> (r: i32)
    ensures
        r as int == seq_max_time(tcs@),
{
    if tcs.len() == 0 {
        return 0;
    }
    let mut r: i32 = tcs[0].time_used;
    let mut i: usize = 1;
    proof {
        let t1 = tcs@.take(1);
        assert(t1.len() == 1 && t1[0] == tcs@[0]);
    }
    while i < tcs.len()
        invariant
            1 <= i <= tcs@.len(),
            r as int == seq_max_time(tcs@.take(i as int)),
        decreases tcs@.len() - i,
    {
        let ghost pre = tcs@.take(i as int);
        if tcs[i].time_used > r {
            r = tcs[i].time_used;
        }
        i = i + 1;
        proof {
            assert(tcs@.take(i as int).drop_last() =~= pre);
            assert(tcs@.take(i as int).last() == tcs@[i - 1]);
        }
    }
    proof {
        assert(tcs@.take(tcs@.len() as int) =~= tcs@);
    }
    r
}

/// The largest memory used among the results; 0 when there are none.
pub fn max_memory_used(tcs: &Vec<TestCaseResult>) -> (r: i32)
    ensures
        r as int == seq_max_memory(tcs@),
{
    if tcs.len() == 0 {
        return 0;
    }
    let mut r: i32 = tcs[0].memory_used;
    let mut i: usize = 1;
    proof {
        let t1 = tcs@.take(1);
        assert(t1.len() == 1 && t1[0] == tcs@[0]);
    }
    while i < tcs.len()
        invariant
            1 <= i <= tcs@.len(),
            r as int == seq_max_memory(tcs@.take(i as int)),
        decreases tcs@.len() - i,
    {
        let ghost pre = tcs@.take(i as int);
        if tcs[i].memory_used > r {
            r = tcs[i].memory_used;
        }
        i = i + 1;
        proof {
            assert(tcs@.take(i as int).drop_last() =~= pre);
            assert(tcs@.take(i as int).last() == tcs@[i - 1]);
        }
    }
    proof {
        assert(tcs@.take(tcs@.len() as int) =~= tcs@);
    }
    r
}

/// The per-subtask results of one submission under a configuration: empty
/// when subtask mode is disabled, otherwise one result per configured
/// subtask, in configured order.
pub fn compute_subtask_results(tcs: &Vec<TestCaseResult>, config: &ProblemIOIConfig) -> (out: Vec<
    SubtaskResult,
>)
    ensures
        !config.subtask_enabled ==> out@.len() == 0,
        config.subtask_enabled ==> out@.len() == config.subtasks@.len(),
        forall|k: int|
            0 <= k < out@.len() ==> is_subtask_result_for(out@[k], tcs@, config.subtasks@[k]),
{
    let mut out: Vec<SubtaskResult> = Vec::new();
    if !config.subtask_enabled {
        return out;
    }
    let mut k: usize = 0;
    while k < config.subtasks.len()
        invariant
            k <= config.subtasks@.len(),
            out@.len() == k,
            forall|j: int|
                0 <= j < k ==> is_subtask_result_for(out@[j], tcs@, config.subtasks@[j]),
        decreases config.subtasks@.len() - k,
    {
        let subtask = &config.subtasks[k];
        let filtered = filter_matching(tcs, &subtask.test_case_ids);
        let (score, verdict, time_used, memory_used) = calculate_subtask_score(&filtered, subtask);
        out.push(
            SubtaskResult {
                subtask_id: subtask.id,
                subtask_name: subtask.name.clone(),
                score,
                max_score: subtask.max_score,
                verdict,
                time_used,
                memory_used,
            },
        );
        k = k + 1;
    }
    out
}

/// Sum of the subtask scores, saturated into `i32`.
pub fn compute_total_score_from_subtasks(results: &Vec<SubtaskResult>) -> (r: i32)
    ensures
        r as int == clamp_i32(sum_subtask_scores(results@)),
{
    let mut acc: i128 = 0;
    let mut i: usize = 0;
    proof {
        assert(results@.take(0) =~= Seq::<SubtaskResult>::empty());
    }
    while i < results.len()
        invariant
            i <= results@.len(),
            acc as int == sum_subtask_scores(results@.take(i as int)),
            -0x80000000 * (i as int) <= acc as int <= 0x80000000 * (i as int),
        decreases results@.len() - i,
    {
        let ghost pre = results@.take(i as int);
        acc = acc + results[i].score as i128;
        i = i + 1;
        proof {
            assert(results@.take(i as int).drop_last() =~= pre);
            assert(results@.take(i as int).last() == results@[i - 1]);
        }
    }
    proof {
        assert(results@.take(results@.len() as int) =~= results@);
    }
    if acc > i32::MAX as i128 {
        i32::MAX
    } else if acc < i32::MIN as i128 {
        i32::MIN
    } else {
        acc as i32
    }
}

proof fn lemma_sum_matches_total(rs: Seq<SubtaskResult>, tcs: Seq<TestCaseResult>, cfgs: Seq<SubtaskConfig>)
    requires
        rs.len() == cfgs.len(),
        forall|k: int| 0 <= k < rs.len() ==> is_subtask_result_for(rs[k], tcs, cfgs[k]),
    ensures
        sum_subtask_scores(rs) == total_over_subtasks(tcs, cfgs),
    decreases rs.len(),
{
    if rs.len() > 0 {
        assert(is_subtask_result_for(rs.last(), tcs, cfgs.last()));
        lemma_sum_matches_total(rs.drop_last(), tcs, cfgs.drop_last());
    }
}

/// A submission's total from its test-case results: the subtask total when
/// subtask mode is on and subtasks exist, the flat sum of test-case scores
/// otherwise.
pub fn compute_total_score_from_test_cases(tcs: &Vec<TestCaseResult>, config: &ProblemIOIConfig) -> (r: i32)
    ensures
        r as int == total_from_test_cases(tcs@, *config),
{
    if config.subtask_enabled && config.subtasks.len() > 0 {
        let results = compute_subtask_results(tcs, config);
        let total = compute_total_score_from_subtasks(&results);
        proof {
            lemma_sum_matches_total(results@, tcs@, config.subtasks@);
        }
        total
    } else {
        sum_scores_clamped(tcs)
    }
}

/// The overall verdict of one submission, from its subtask results and its
/// total and maximum score.
pub fn determine_overall_verdict(results: &Vec<SubtaskResult>, total_score: i32, max_score: i32) -> (r: Verdict)
    ensures
        r == overall_verdict(results@, total_score as int, max_score as int),
{
    if results.len() == 0 {
        return Verdict::Unknown;
    }
    if total_score >= max_score {
        return Verdict::Accepted;
    }
    if total_score > 0 {
        return Verdict::PartiallyCorrect;
    }
    let mut i: usize = 0;
    proof {
        assert(results@.take(0) =~= Seq::<SubtaskResult>::empty());
    }
    while i < results.len()
        invariant
            i <= results@.len(),
            results@.len() > 0,
            total_score < max_score,
            total_score <= 0,
            first_bad_subtask(results@.take(i as int)) is None,
        decreases results@.len() - i,
    {
        let ghost pre = results@.take(i as int);
        let v = results[i].verdict;
        proof {
            assert(results@.take(i as int + 1).drop_last() =~= pre);
            assert(results@.take(i as int + 1) =~= pre.push(results@[i as int]));
            lemma_first_bad_subtask_push(pre, results@[i as int]);
        }
        if v != Verdict::Accepted && v != Verdict::NoData {
            proof {
                assert(first_bad_subtask(pre.push(results@[i as int])) == Some(v));
                assert(first_bad_subtask(results@.take(i as int + 1)) == Some(v));
                lemma_first_bad_prefix(results@, i as int + 1);
                assert(first_bad_subtask(results@) == Some(v));
            }
            return v;
        }
        i = i + 1;
    }
    proof {
        assert(results@.take(results@.len() as int) =~= results@);
    }
    Verdict::WrongAnswer
}

/// A determined prefix answer of `first_bad_subtask` settles the whole
/// sequence.
proof fn lemma_first_bad_prefix(s: Seq<SubtaskResult>, k: int)
    requires
        0 <= k <= s.len(),
        first_bad_subtask(s.take(k)) is Some,
    ensures
        first_bad_subtask(s) == first_bad_subtask(s.take(k)),
    decreases k,
{
    if k > 0 {
        if s[0].verdict != Verdict::Accepted && s[0].verdict != Verdict::NoData {
            assert(s.take(k)[0] == s[0]);
        } else {
            assert(s.take(k)[0] == s[0]);
            assert(s.take(k).drop_first() =~= s.drop_first().take(k - 1));
            lemma_first_bad_prefix(s.drop_first(), k - 1);
        }
    } else {
        assert(first_bad_subtask(s.take(0)) is None);
    }
}

} // verus!
