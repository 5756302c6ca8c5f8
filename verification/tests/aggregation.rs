//! Final-score aggregation across submissions, submission finalization,
//! and the end-to-end examples over the sample data.

use ioi_scoring::mock::{get_base_submissions, get_mock_problem_config};
use ioi_scoring::models::{FinalScoreMethod, JudgeResult, ProblemIOIConfig, Submission,
    SubmissionWithResult, SubtaskConfig, SubtaskScoringMethod, TestCaseResult, Verdict};
use ioi_scoring::aggregate::{calculate_problem_final_score, count_submissions_for};
use ioi_scoring::ops::{finalize_submission_score, score_output_not_found, score_output_not_judged};
use ioi_scoring::scoring::{compute_subtask_results, compute_total_score_from_test_cases};

fn tc(test_case_id: i32, verdict: Verdict, score: i32) -> TestCaseResult {
    TestCaseResult {
        id: test_case_id,
        judge_result_id: 1,
        test_case_id,
        verdict,
        score,
        time_used: 10,
        memory_used: 100,
        created_at: String::from("2024-01-01T00:00:01Z"),
    }
}

fn submission(id: i32, user_id: i32, problem_id: i32) -> Submission {
    Submission {
        id,
        code: String::new(),
        language: String::from("cpp"),
        status: String::from("Finished"),
        user_id,
        problem_id,
        created_at: String::from("2024-01-01T10:00:00Z"),
    }
}

fn judge_result(id: i32, submission_id: i32, score: i32) -> JudgeResult {
    JudgeResult {
        id,
        verdict: Verdict::Pending,
        score,
        time_used: 0,
        memory_used: 0,
        submission_id,
        created_at: String::from("2024-01-01T10:00:01Z"),
    }
}

fn swr(id: i32, user_id: i32, problem_id: i32, stored: i32, tcs: Vec<TestCaseResult>) -> SubmissionWithResult {
    SubmissionWithResult {
        submission: submission(id, user_id, problem_id),
        result: Some(judge_result(id, id, stored)),
        test_case_results: tcs,
    }
}

fn subtask(id: i32, max_score: i32, method: SubtaskScoringMethod, ids: Vec<i32>) -> SubtaskConfig {
    SubtaskConfig {
        id,
        name: format!("Subtask {}", id),
        max_score,
        scoring_method: method,
        test_case_ids: ids,
    }
}

/// The example configuration: three subtasks worth 30/30/40, methods
/// Sum / GroupMin / GroupMin.
fn example_config(final_score_method: FinalScoreMethod) -> ProblemIOIConfig {
    ProblemIOIConfig {
        problem_id: 1,
        subtask_enabled: true,
        final_score_method,
        subtasks: vec![
            subtask(1, 30, SubtaskScoringMethod::Sum, vec![1, 2, 3]),
            subtask(2, 30, SubtaskScoringMethod::GroupMin, vec![4, 5]),
            subtask(3, 40, SubtaskScoringMethod::GroupMin, vec![6, 7]),
        ],
    }
}

fn all_accepted_tcs() -> Vec<TestCaseResult> {
    vec![
        tc(1, Verdict::Accepted, 10),
        tc(2, Verdict::Accepted, 10),
        tc(3, Verdict::Accepted, 10),
        tc(4, Verdict::Accepted, 15),
        tc(5, Verdict::Accepted, 15),
        tc(6, Verdict::Accepted, 20),
        tc(7, Verdict::Accepted, 20),
    ]
}

#[test]
fn end_to_end_all_accepted_scores_full() {
    let config = example_config(FinalScoreMethod::BestSubmission);
    let tcs = all_accepted_tcs();
    let results = compute_subtask_results(&tcs, &config);
    assert_eq!(results.len(), 3);
    assert_eq!(results[0].score, 30);
    assert_eq!(results[1].score, 30);
    assert_eq!(results[2].score, 40);
    let jr = judge_result(1, 1, 0);
    let (updated, subtask_results) = finalize_submission_score(&jr, &tcs, &config);
    assert_eq!(subtask_results.len(), 3);
    assert_eq!(updated.score, 100);
    assert_eq!(updated.verdict, Verdict::Accepted);
    assert_eq!(updated.id, 1);
    assert_eq!(updated.time_used, 10);
    assert_eq!(updated.memory_used, 100);
}

#[test]
fn end_to_end_time_limit_in_last_subtask() {
    let config = example_config(FinalScoreMethod::BestSubmission);
    let mut tcs = all_accepted_tcs();
    tcs[5] = tc(6, Verdict::TimeLimitExceeded, 0);
    let results = compute_subtask_results(&tcs, &config);
    assert_eq!(results[0].score, 30);
    assert_eq!(results[1].score, 30);
    assert_eq!(results[2].score, 0);
    assert_eq!(results[2].verdict, Verdict::TimeLimitExceeded);
    let jr = judge_result(1, 1, 0);
    let (updated, _) = finalize_submission_score(&jr, &tcs, &config);
    assert_eq!(updated.score, 60);
    assert_eq!(updated.verdict, Verdict::PartiallyCorrect);
}

#[test]
fn zero_submissions_score_zero_without_breakdown() {
    let config = example_config(FinalScoreMethod::BestSubtaskSum);
    let submissions: Vec<SubmissionWithResult> = vec![];
    let (score, breakdown) = calculate_problem_final_score(&submissions, 1, 1, &config);
    assert_eq!(score, 0);
    assert!(breakdown.is_none());
    assert_eq!(count_submissions_for(&submissions, 1, 1), 0);
}

#[test]
fn other_users_submissions_are_ignored() {
    let config = example_config(FinalScoreMethod::BestSubmission);
    let submissions = vec![swr(1, 2, 1, 77, all_accepted_tcs())];
    let (score, breakdown) = calculate_problem_final_score(&submissions, 1, 1, &config);
    assert_eq!(score, 0);
    assert!(breakdown.is_none());
    assert_eq!(count_submissions_for(&submissions, 1, 1), 0);
    assert_eq!(count_submissions_for(&submissions, 2, 1), 1);
}

#[test]
fn best_submission_takes_the_stored_maximum() {
    let config = example_config(FinalScoreMethod::BestSubmission);
    let submissions = vec![
        swr(1, 1, 1, 40, vec![]),
        swr(2, 1, 1, 70, vec![]),
        swr(3, 1, 1, 55, vec![]),
    ];
    let (score, breakdown) = calculate_problem_final_score(&submissions, 1, 1, &config);
    assert_eq!(score, 70);
    assert!(breakdown.is_none());
}

#[test]
fn best_subtask_sum_mixes_submissions() {
    // first try: full on subtask 2 only; second try: full on subtasks 1
    // and 3 only; the mixed best is 30 + 30 + 40 = 100
    let config = example_config(FinalScoreMethod::BestSubtaskSum);
    let first = vec![
        tc(1, Verdict::WrongAnswer, 0),
        tc(2, Verdict::WrongAnswer, 0),
        tc(3, Verdict::WrongAnswer, 0),
        tc(4, Verdict::Accepted, 15),
        tc(5, Verdict::Accepted, 15),
        tc(6, Verdict::WrongAnswer, 0),
        tc(7, Verdict::WrongAnswer, 0),
    ];
    let second = vec![
        tc(1, Verdict::Accepted, 10),
        tc(2, Verdict::Accepted, 10),
        tc(3, Verdict::Accepted, 10),
        tc(4, Verdict::WrongAnswer, 0),
        tc(5, Verdict::WrongAnswer, 0),
        tc(6, Verdict::Accepted, 20),
        tc(7, Verdict::Accepted, 20),
    ];
    let submissions = vec![swr(1, 1, 1, 30, first), swr(2, 1, 1, 70, second)];
    let (score, breakdown) = calculate_problem_final_score(&submissions, 1, 1, &config);
    assert_eq!(score, 100);
    let bs = breakdown.expect("a per-subtask breakdown");
    assert_eq!(bs.len(), 3);
    assert_eq!(bs[0].best_score, 30);
    assert_eq!(bs[1].best_score, 30);
    assert_eq!(bs[2].best_score, 40);
    assert_eq!(bs[0].max_score, 30);
}

#[test]
fn best_subtask_sum_dominates_every_own_total() {
    // the sample data: charlie's two tries on problem 1 total 20 and 60;
    // the mixed best is 30 + 30 + 0 = 60, at least both
    let config = example_config(FinalScoreMethod::BestSubtaskSum);
    let base = get_base_submissions();
    let mut own_totals: Vec<i32> = Vec::new();
    for s in &base {
        if s.submission.user_id == 3 && s.submission.problem_id == 1 {
            own_totals.push(compute_total_score_from_test_cases(&s.test_case_results, &config));
        }
    }
    assert_eq!(own_totals, vec![20, 60]);
    let (score, _) = calculate_problem_final_score(&base, 3, 1, &config);
    assert_eq!(score, 60);
    for own in own_totals {
        assert!(score >= own);
    }
}

#[test]
fn best_subtask_sum_without_subtasks_falls_back_to_stored() {
    let config = ProblemIOIConfig {
        problem_id: 9,
        subtask_enabled: false,
        final_score_method: FinalScoreMethod::BestSubtaskSum,
        subtasks: vec![],
    };
    let submissions = vec![swr(1, 1, 9, 12, vec![]), swr(2, 1, 9, 34, vec![])];
    let (score, breakdown) = calculate_problem_final_score(&submissions, 1, 9, &config);
    assert_eq!(score, 34);
    assert!(breakdown.is_none());
}

#[test]
fn failure_outputs_carry_their_sentinels() {
    let nf = score_output_not_found(17);
    assert!(!nf.success);
    assert_eq!(nf.submission_id, 17);
    assert_eq!(nf.score, 0);
    assert_eq!(nf.verdict, Verdict::NotFound);
    assert!(nf.subtask_results.is_empty());
    assert_eq!(nf.message, "Submission not found");

    let nj = score_output_not_judged(18);
    assert!(!nj.success);
    assert_eq!(nj.verdict, Verdict::NotJudged);
    assert_eq!(nj.message, "Judge result not found");
}

#[test]
fn flat_scoring_when_subtasks_disabled() {
    let config = ProblemIOIConfig {
        problem_id: 5,
        subtask_enabled: false,
        final_score_method: FinalScoreMethod::BestSubmission,
        subtasks: vec![],
    };
    let tcs = vec![
        tc(1, Verdict::Accepted, 25),
        tc(2, Verdict::Accepted, 35),
    ];
    assert_eq!(compute_total_score_from_test_cases(&tcs, &config), 60);
    assert!(compute_subtask_results(&tcs, &config).is_empty());
}

#[test]
fn finalize_with_no_subtasks_reports_unknown() {
    let config = ProblemIOIConfig {
        problem_id: 5,
        subtask_enabled: false,
        final_score_method: FinalScoreMethod::BestSubmission,
        subtasks: vec![],
    };
    let tcs = vec![tc(1, Verdict::Accepted, 50)];
    let jr = judge_result(4, 4, 0);
    let (updated, subtask_results) = finalize_submission_score(&jr, &tcs, &config);
    assert!(subtask_results.is_empty());
    assert_eq!(updated.score, 50);
    assert_eq!(updated.verdict, Verdict::Unknown);
}

#[test]
fn stray_test_cases_belong_to_no_subtask() {
    // a result whose test-case id no subtask claims changes nothing
    let config = example_config(FinalScoreMethod::BestSubmission);
    let mut tcs = all_accepted_tcs();
    tcs.push(tc(99, Verdict::WrongAnswer, 0));
    let results = compute_subtask_results(&tcs, &config);
    assert_eq!(results[0].score, 30);
    assert_eq!(results[1].score, 30);
    assert_eq!(results[2].score, 40);
    assert_eq!(compute_total_score_from_test_cases(&tcs, &config), 100);
}

#[test]
fn sample_config_matches_sample_data() {
    // the sample store ties it together: alice's first submission on the
    // sample configuration of problem 1 is worth the full 100
    let config = get_mock_problem_config(1);
    assert_eq!(config.final_score_method, FinalScoreMethod::BestSubmission);
    let base = get_base_submissions();
    let total = compute_total_score_from_test_cases(&base[0].test_case_results, &config);
    assert_eq!(total, 100);
    let bob_total = compute_total_score_from_test_cases(&base[2].test_case_results, &config);
    assert_eq!(bob_total, 60);
}
