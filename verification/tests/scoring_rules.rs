//! Subtask scoring rules: all-or-nothing, additive, and partial-credit
//! behaviour, verdict derivation, and saturation.

use ioi_scoring::models::{SubtaskConfig, SubtaskScoringMethod, TestCaseResult, Verdict};
use ioi_scoring::scoring::calculate_subtask_score;

fn tc(test_case_id: i32, verdict: Verdict, score: i32, time_used: i32, memory_used: i32) -> TestCaseResult {
    TestCaseResult {
        id: test_case_id,
        judge_result_id: 1,
        test_case_id,
        verdict,
        score,
        time_used,
        memory_used,
        created_at: String::from("2024-01-01T00:00:01Z"),
    }
}

fn cfg(method: SubtaskScoringMethod, max_score: i32, ids: Vec<i32>) -> SubtaskConfig {
    SubtaskConfig {
        id: 1,
        name: String::from("subtask"),
        max_score,
        scoring_method: method,
        test_case_ids: ids,
    }
}

#[test]
fn group_min_full_when_all_accepted() {
    let tcs = vec![
        tc(1, Verdict::Accepted, 5, 10, 100),
        tc(2, Verdict::Accepted, 5, 20, 100),
    ];
    let c = cfg(SubtaskScoringMethod::GroupMin, 30, vec![1, 2]);
    let (score, verdict, time, mem) = calculate_subtask_score(&tcs, &c);
    assert_eq!(score, 30);
    assert_eq!(verdict, Verdict::Accepted);
    assert_eq!(time, 20);
    assert_eq!(mem, 100);
}

#[test]
fn group_min_zero_on_any_rejection() {
    let tcs = vec![
        tc(1, Verdict::Accepted, 5, 10, 100),
        tc(2, Verdict::TimeLimitExceeded, 0, 2000, 100),
    ];
    let c = cfg(SubtaskScoringMethod::GroupMin, 30, vec![1, 2]);
    let (score, verdict, time, _) = calculate_subtask_score(&tcs, &c);
    assert_eq!(score, 0);
    assert_eq!(verdict, Verdict::TimeLimitExceeded);
    assert_eq!(time, 2000);
}

#[test]
fn sum_adds_test_case_scores() {
    let tcs = vec![
        tc(1, Verdict::Accepted, 10, 1, 1),
        tc(2, Verdict::Accepted, 10, 1, 1),
        tc(3, Verdict::WrongAnswer, 0, 1, 1),
    ];
    let c = cfg(SubtaskScoringMethod::Sum, 30, vec![1, 2, 3]);
    let (score, verdict, _, _) = calculate_subtask_score(&tcs, &c);
    assert_eq!(score, 20);
    assert_eq!(verdict, Verdict::PartiallyCorrect);
}

#[test]
fn sum_saturates_at_score_range() {
    let tcs = vec![
        tc(1, Verdict::Accepted, i32::MAX, 1, 1),
        tc(2, Verdict::Accepted, i32::MAX, 1, 1),
    ];
    let c = cfg(SubtaskScoringMethod::Sum, 100, vec![1, 2]);
    let (score, _, _, _) = calculate_subtask_score(&tcs, &c);
    assert_eq!(score, i32::MAX);
}

#[test]
fn empty_subtask_scores_zero_no_data() {
    let tcs: Vec<TestCaseResult> = vec![];
    let c = cfg(SubtaskScoringMethod::Sum, 30, vec![1]);
    let (score, verdict, time, mem) = calculate_subtask_score(&tcs, &c);
    assert_eq!(score, 0);
    assert_eq!(verdict, Verdict::NoData);
    assert_eq!(time, 0);
    assert_eq!(mem, 0);
}

#[test]
fn all_rejected_reports_first_verdict_in_input_order() {
    let tcs = vec![
        tc(1, Verdict::RuntimeError, 0, 1, 1),
        tc(2, Verdict::WrongAnswer, 0, 1, 1),
    ];
    let c = cfg(SubtaskScoringMethod::Sum, 30, vec![1, 2]);
    let (score, verdict, _, _) = calculate_subtask_score(&tcs, &c);
    assert_eq!(score, 0);
    assert_eq!(verdict, Verdict::RuntimeError);
}

#[test]
fn group_mul_full_credit_when_each_scores_its_share() {
    // four test cases, each worth 40 / 4 = 10: every ratio is 1
    let tcs = vec![
        tc(1, Verdict::Accepted, 10, 1, 1),
        tc(2, Verdict::Accepted, 10, 1, 1),
        tc(3, Verdict::Accepted, 10, 1, 1),
        tc(4, Verdict::Accepted, 10, 1, 1),
    ];
    let c = cfg(SubtaskScoringMethod::GroupMul, 40, vec![1, 2, 3, 4]);
    let (score, verdict, _, _) = calculate_subtask_score(&tcs, &c);
    assert_eq!(score, 40);
    assert_eq!(verdict, Verdict::Accepted);
}

#[test]
fn group_mul_rounds_half_away_from_zero() {
    // ratios 1, 0.9, 0.63: product 0.567, score 56.7, rounded up to 57
    let tcs = vec![
        tc(1, Verdict::Accepted, 50, 1, 1),
        tc(2, Verdict::PartiallyCorrect, 30, 1, 1),
        tc(3, Verdict::PartiallyCorrect, 21, 1, 1),
    ];
    let c = cfg(SubtaskScoringMethod::GroupMul, 100, vec![1, 2, 3]);
    let (score, verdict, _, _) = calculate_subtask_score(&tcs, &c);
    assert_eq!(score, 57);
    assert_eq!(verdict, Verdict::PartiallyCorrect);
}

#[test]
fn group_mul_rounds_low_products_down() {
    // ratios 1, 0.9, 0.6: product 0.54, score exactly 54
    let tcs = vec![
        tc(1, Verdict::Accepted, 50, 1, 1),
        tc(2, Verdict::PartiallyCorrect, 30, 1, 1),
        tc(3, Verdict::PartiallyCorrect, 20, 1, 1),
    ];
    let c = cfg(SubtaskScoringMethod::GroupMul, 100, vec![1, 2, 3]);
    let (score, _, _, _) = calculate_subtask_score(&tcs, &c);
    assert_eq!(score, 54);
}

#[test]
fn group_mul_rounds_up_past_the_half() {
    // each score 10 of a 100/3 per-test maximum gives ratio 0.3; the
    // product is 0.027, the score 2.7, rounded to 3
    let tcs = vec![
        tc(1, Verdict::PartiallyCorrect, 10, 1, 1),
        tc(2, Verdict::PartiallyCorrect, 10, 1, 1),
        tc(3, Verdict::PartiallyCorrect, 10, 1, 1),
    ];
    let c = cfg(SubtaskScoringMethod::GroupMul, 100, vec![1, 2, 3]);
    let (score, _, _, _) = calculate_subtask_score(&tcs, &c);
    assert_eq!(score, 3);
}

#[test]
fn group_mul_zero_max_scores_zero() {
    let tcs = vec![tc(1, Verdict::Accepted, 10, 1, 1)];
    let c = cfg(SubtaskScoringMethod::GroupMul, 0, vec![1]);
    let (score, _, _, _) = calculate_subtask_score(&tcs, &c);
    assert_eq!(score, 0);
}

#[test]
fn group_mul_negative_score_gives_negative_ratio() {
    // ratios -1 and 1 (capped): product -1, score -10
    let tcs = vec![
        tc(1, Verdict::WrongAnswer, -5, 1, 1),
        tc(2, Verdict::Accepted, 20, 1, 1),
    ];
    let c = cfg(SubtaskScoringMethod::GroupMul, 10, vec![1, 2]);
    let (score, _, _, _) = calculate_subtask_score(&tcs, &c);
    assert_eq!(score, -10);
}

#[test]
fn group_mul_handles_huge_exact_products() {
    // five test cases each scoring exactly a fifth of two billion: the
    // exact product runs far past machine-word range, yet every ratio is
    // 1 and the full maximum comes back
    let tcs: Vec<TestCaseResult> = (1..=5)
        .map(|i| tc(i, Verdict::Accepted, 400_000_000, 1, 1))
        .collect();
    let c = cfg(SubtaskScoringMethod::GroupMul, 2_000_000_000, vec![1, 2, 3, 4, 5]);
    let (score, verdict, _, _) = calculate_subtask_score(&tcs, &c);
    assert_eq!(score, 2_000_000_000);
    assert_eq!(verdict, Verdict::Accepted);
}

#[test]
fn group_mul_saturates_a_huge_positive_product() {
    // two hugely negative ratios multiply into a huge positive product,
    // saturated at the top of the score range
    let tcs = vec![
        tc(1, Verdict::WrongAnswer, -2_000_000_000, 1, 1),
        tc(2, Verdict::WrongAnswer, -2_000_000_000, 1, 1),
    ];
    let c = cfg(SubtaskScoringMethod::GroupMul, 10, vec![1, 2]);
    let (score, _, _, _) = calculate_subtask_score(&tcs, &c);
    assert_eq!(score, i32::MAX);
}

#[test]
fn group_mul_saturates_a_huge_negative_product() {
    let tcs = vec![
        tc(1, Verdict::WrongAnswer, -2_000_000_000, 1, 1),
        tc(2, Verdict::WrongAnswer, -2_000_000_000, 1, 1),
        tc(3, Verdict::WrongAnswer, -2_000_000_000, 1, 1),
    ];
    let c = cfg(SubtaskScoringMethod::GroupMul, 10, vec![1, 2, 3]);
    let (score, _, _, _) = calculate_subtask_score(&tcs, &c);
    assert_eq!(score, i32::MIN);
}

#[test]
fn group_mul_single_test_case_scores_its_capped_score() {
    let tcs = vec![tc(1, Verdict::PartiallyCorrect, 7, 1, 1)];
    let c = cfg(SubtaskScoringMethod::GroupMul, 10, vec![1]);
    let (score, _, _, _) = calculate_subtask_score(&tcs, &c);
    assert_eq!(score, 7);
}
