//! The engine's guiding laws, stated and proved over the same spec
//! functions that the executable functions' contracts use.

use vstd::prelude::*;
use vstd::arithmetic::power::{pow, lemma_pow0, lemma_pow_positive};
use vstd::arithmetic::div_mod::{lemma_div_denominator, lemma_div_multiples_vanish,
    lemma_fundamental_div_mod, lemma_fundamental_div_mod_converse_div,
    lemma_fundamental_div_mod_converse_mod, lemma_div_pos_is_pos};
use crate::aggregate::{best_stored, best_subtask, final_score_of, seq_max_int, stored_scores,
    submission_subtask_score, sum_best_subtasks, uses_subtask_breakdown};
use crate::leaderboard::page_slice;
use crate::models::{LeaderboardEntry, JudgeResult, ProblemIOIConfig, SubmissionWithResult,
    SubtaskConfig, SubtaskScoringMethod, TestCaseResult, Verdict};
use crate::scoring::{all_accepted, clamp_i32, gm_factor, gm_numerator, group_mul_score,
    max_i, round_half_div, scores_of, seq_sum_scores, subtask_score, subtask_verdict,
    total_from_test_cases, total_over_subtasks};

verus! {

/// All-or-nothing scoring: a `GroupMin` subtask with at least one test case
/// is worth its full maximum exactly when every test case is `Accepted`,
/// and nothing otherwise.
pub proof fn lemma_group_min_all_or_nothing(tcs: Seq<TestCaseResult>, cfg: SubtaskConfig)
    requires
        cfg.scoring_method == SubtaskScoringMethod::GroupMin,
        tcs.len() > 0,
    ensures
        all_accepted(tcs) ==> subtask_score(tcs, cfg) == cfg.max_score as int,
        !all_accepted(tcs) ==> subtask_score(tcs, cfg) == 0,
{
}

/// Additive scoring: a `Sum` subtask is worth the arithmetic sum of its
/// test-case scores (saturated into the score range), and an empty subtask
/// is worth 0 with the sentinel verdict `NoData`.
pub proof fn lemma_sum_is_arithmetic_sum(tcs: Seq<TestCaseResult>, cfg: SubtaskConfig)
    requires
        cfg.scoring_method == SubtaskScoringMethod::Sum,
    ensures
        tcs.len() > 0 ==> subtask_score(tcs, cfg) == clamp_i32(seq_sum_scores(tcs)),
        tcs.len() > 0 && i32::MIN as int <= seq_sum_scores(tcs) <= i32::MAX as int
            ==> subtask_score(tcs, cfg) == seq_sum_scores(tcs),
        tcs.len() == 0 ==> subtask_score(tcs, cfg) == 0 && subtask_verdict(tcs, 0)
            == Verdict::NoData,
{
}

proof fn lemma_numerator_all_full(scores: Seq<int>, n: int, m: int)
    requires
        forall|i: int| 0 <= i < scores.len() ==> gm_factor(#[trigger] scores[i], n, m) == m,
    ensures
        gm_numerator(scores, n, m) == pow(m, scores.len() as nat),
    decreases scores.len(),
{
    if scores.len() == 0 {
        lemma_pow0(m);
    } else {
        lemma_numerator_all_full(scores.drop_last(), n, m);
        assert(gm_factor(scores.last(), n, m) == m);
        crate::scoring::lemma_pow_succ(m, (scores.len() - 1) as nat);
        assert(pow(m, scores.len() as nat) == m * pow(m, (scores.len() - 1) as nat));
        assert(pow(m, (scores.len() - 1) as nat) * m == m * pow(m, (scores.len() - 1) as nat))
            by (nonlinear_arith);
    }
}

/// Full partial credit: when every one of the `n` test cases of a
/// `GroupMul` subtask scores exactly `max / n`, every completion ratio is
/// 1, and the subtask is worth its full maximum.
pub proof fn lemma_group_mul_full_credit(tcs: Seq<TestCaseResult>, cfg: SubtaskConfig)
    requires
        cfg.scoring_method == SubtaskScoringMethod::GroupMul,
        tcs.len() > 0,
        cfg.max_score > 0,
        cfg.max_score as int % (tcs.len() as int) == 0,
        forall|i: int|
            0 <= i < tcs.len() ==> (#[trigger] tcs[i]).score as int == cfg.max_score as int
                / tcs.len() as int,
    ensures
        subtask_score(tcs, cfg) == cfg.max_score as int,
{
    let n = tcs.len() as int;
    let m = cfg.max_score as int;
    let scores = scores_of(tcs);
    assert forall|i: int| 0 <= i < scores.len() implies gm_factor(#[trigger] scores[i], n, m)
        == m by {
        assert(scores[i] == m / n);
        lemma_fundamental_div_mod(m, n);
        assert(m == n * (m / n) + m % n);
        assert((m / n) * n == n * (m / n)) by (nonlinear_arith);
    }
    lemma_numerator_all_full(scores, n, m);
    let p = pow(m, n as nat);
    let d = pow(m, (n - 1) as nat);
    lemma_pow_positive(m, (n - 1) as nat);
    assert(p == m * d) by {
        crate::scoring::lemma_pow_succ(m, (n - 1) as nat);
        assert(pow(m, n as nat) == m * pow(m, (n - 1) as nat));
    }
    assert(p >= 0) by (nonlinear_arith)
        requires
            p == m * d,
            m > 0,
            d >= 1,
    ;
    assert(round_half_div(p, d) == (2 * p + d) / (2 * d));
    assert(2 * p + d == d * (2 * m + 1)) by (nonlinear_arith)
        requires
            p == m * d,
    ;
    lemma_div_pos_is_pos(2 * p + d, d);
    assert((d * (2 * m + 1)) / d == 2 * m + 1) by {
        lemma_div_multiples_vanish(2 * m + 1, d);
    }
    lemma_div_denominator(2 * p + d, d, 2);
    assert(d * 2 == 2 * d) by (nonlinear_arith);
    assert((2 * p + d) / (2 * d) == (2 * m + 1) / 2);
    assert((2 * m + 1) / 2 == m) by {
        lemma_fundamental_div_mod_converse_div(2 * m + 1, 2, m, 1);
    }
    assert(group_mul_score(scores, m) == clamp_i32(m));
    assert(clamp_i32(m) == m);
}

proof fn lemma_best_stored_ge(fs: Seq<SubmissionWithResult>, j: int, jr: JudgeResult)
    requires
        0 <= j < fs.len(),
        fs[j].result == Some(jr),
    ensures
        stored_scores(fs).len() > 0,
        best_stored(fs) >= jr.score,
    decreases fs.len(),
{
    if j == fs.len() - 1 {
        let s = stored_scores(fs.drop_last());
        assert(stored_scores(fs) == s.push(jr.score as int));
        assert(s.push(jr.score as int).last() == jr.score as int);
        assert(s.push(jr.score as int).drop_last() =~= s);
        if s.len() > 0 {
            assert(seq_max_int(s.push(jr.score as int)) == max_i(seq_max_int(s), jr.score as int));
        }
    } else {
        lemma_best_stored_ge(fs.drop_last(), j, jr);
        let s = stored_scores(fs.drop_last());
        match fs.last().result {
            Some(jr2) => {
                assert(stored_scores(fs) == s.push(jr2.score as int));
                assert(s.push(jr2.score as int).drop_last() =~= s);
                assert(seq_max_int(s.push(jr2.score as int)) >= seq_max_int(s));
            },
            None => {
                assert(stored_scores(fs) == s);
            },
        }
    }
}

proof fn lemma_best_subtask_ge(fs: Seq<SubmissionWithResult>, j: int, cfg: SubtaskConfig)
    requires
        0 <= j < fs.len(),
    ensures
        best_subtask(fs, cfg) >= submission_subtask_score(fs[j], cfg),
    decreases fs.len(),
{
    if fs.len() > 1 && j < fs.len() - 1 {
        lemma_best_subtask_ge(fs.drop_last(), j, cfg);
    }
}

proof fn lemma_sum_best_ge_own(fs: Seq<SubmissionWithResult>, j: int, tcs: Seq<TestCaseResult>, cfgs: Seq<SubtaskConfig>)
    requires
        0 <= j < fs.len(),
        tcs == fs[j].test_case_results@,
    ensures
        sum_best_subtasks(fs, cfgs) >= total_over_subtasks(tcs, cfgs),
    decreases cfgs.len(),
{
    if cfgs.len() > 0 {
        lemma_sum_best_ge_own(fs, j, tcs, cfgs.drop_last());
        lemma_best_subtask_ge(fs, j, cfgs.last());
        assert(submission_subtask_score(fs[j], cfgs.last()) == subtask_score(
            crate::scoring::matching_results(tcs, cfgs.last().test_case_ids@),
            cfgs.last(),
        ));
    }
}

/// Monotonic improvement: under `BestSubtaskSum`, the final problem score
/// is at least any single submission's own stored total, provided that
/// stored total is the total the engine itself derives from that
/// submission's test-case results.
pub proof fn lemma_best_subtask_sum_dominates(
    fs: Seq<SubmissionWithResult>,
    config: ProblemIOIConfig,
    j: int,
    jr: JudgeResult,
)
    requires
        config.final_score_method == crate::models::FinalScoreMethod::BestSubtaskSum,
        0 <= j < fs.len(),
        fs[j].result == Some(jr),
        uses_subtask_breakdown(config) ==> jr.score as int == total_from_test_cases(
            fs[j].test_case_results@,
            config,
        ),
    ensures
        final_score_of(fs, config) >= jr.score,
{
    if uses_subtask_breakdown(config) {
        lemma_sum_best_ge_own(fs, j, fs[j].test_case_results@, config.subtasks@);
        assert(total_from_test_cases(fs[j].test_case_results@, config) == clamp_i32(
            total_over_subtasks(fs[j].test_case_results@, config.subtasks@),
        ));
        assert(final_score_of(fs, config) == clamp_i32(sum_best_subtasks(fs, config.subtasks@)));
    } else {
        lemma_best_stored_ge(fs, j, jr);
    }
}

/// Pagination partitions the ranked list: every page row is the list row
/// at its global offset, every list row appears on exactly one page (the
/// page holding its index), and only there.
pub proof fn lemma_pages_cover_exactly_once(entries: Seq<LeaderboardEntry>, page_size: int, i: int)
    requires
        page_size >= 1,
        0 <= i < entries.len(),
    ensures
        forall|q: int, k: int|
            #![trigger page_slice(entries, q, page_size)[k]]
            q >= 1 && 0 <= k < page_slice(entries, q, page_size).len() ==> page_slice(
                entries,
                q,
                page_size,
            )[k] == entries[(q - 1) * page_size + k],
        page_slice(entries, i / page_size + 1, page_size).len() > i % page_size,
        page_slice(entries, i / page_size + 1, page_size)[i % page_size] == entries[i],
{
    assert forall|q: int, k: int|
        q >= 1 && 0 <= k < page_slice(entries, q, page_size).len() implies #[trigger] page_slice(
        entries,
        q,
        page_size,
    )[k] == entries[(q - 1) * page_size + k] by {
        let start = (q - 1) * page_size;
        assert(start >= 0) by (nonlinear_arith)
            requires
                start == (q - 1) * page_size,
                q >= 1,
                page_size >= 1,
        ;
        assert(start < entries.len());
    }
    let p = i / page_size + 1;
    lemma_fundamental_div_mod(i, page_size);
    lemma_div_pos_is_pos(i, page_size);
    assert(0 <= i % page_size < page_size) by {
        vstd::arithmetic::div_mod::lemma_mod_division_less_than_divisor(i, page_size);
    }
    let start = (p - 1) * page_size;
    assert(start == page_size * (i / page_size)) by (nonlinear_arith)
        requires
            start == (p - 1) * page_size,
            p == i / page_size + 1,
    ;
    assert(i == start + i % page_size);
    assert(start <= i < entries.len());
    assert(page_slice(entries, p, page_size).len() > i % page_size);
    assert(page_slice(entries, p, page_size)[i % page_size] == entries[i]);
}

/// A row appears on only one page: a page position whose global offset is
/// `i` must be the page and offset that the division of `i` by the page
/// size names.
pub proof fn lemma_page_position_unique(
    entries: Seq<LeaderboardEntry>,
    page_size: int,
    i: int,
    q: int,
    k: int,
)
    requires
        page_size >= 1,
        0 <= i < entries.len(),
        q >= 1,
        0 <= k < page_slice(entries, q, page_size).len(),
        (q - 1) * page_size + k == i,
    ensures
        q == i / page_size + 1,
        k == i % page_size,
        page_slice(entries, q, page_size)[k] == entries[i],
{
    let startq = (q - 1) * page_size;
    assert(startq >= 0) by (nonlinear_arith)
        requires
            startq == (q - 1) * page_size,
            q >= 1,
            page_size >= 1,
    ;
    assert(k < page_size);
    lemma_fundamental_div_mod_converse_div(i, page_size, q - 1, k);
    lemma_fundamental_div_mod_converse_mod(i, page_size, q - 1, k);
    assert(i == (q - 1) * page_size + k);
    assert(page_slice(entries, q, page_size)[k] == entries[startq + k]);
}

/// A user with no submissions for a problem scores 0 there, with no
/// per-subtask breakdown owed.
pub proof fn lemma_no_submissions_no_score(fs: Seq<SubmissionWithResult>, config: ProblemIOIConfig)
    requires
        fs.len() == 0,
    ensures
        final_score_of(fs, config) == 0,
{
}

} // verus!
