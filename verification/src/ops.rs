//! The engine's request-level computations: assembling a leaderboard page,
//! a submission detail, a recomputed judge result, and the structured
//! failure outputs for missing records.
//!
//! These are pure: the host supplies the records and persists the results.

use vstd::prelude::*;
use crate::leaderboard::{page_slice, paginate_entries, problem_max_score, problem_max_score_of};
use crate::models::{CalculateScoreOutput, ConfigureProblemInput, GetLeaderboardOutput,
    GetSubmissionDetailOutput, JudgeResult, LeaderboardEntry, Problem, ProblemIOIConfig,
    Submission, SubtaskResult, TestCaseResult, Verdict};
use crate::scoring::{compute_subtask_results, compute_total_score_from_test_cases,
    determine_overall_verdict, is_subtask_result_for, max_memory_used, max_time_used,
    overall_verdict, seq_max_memory, seq_max_time, total_from_test_cases, clamp_i32};

verus! {

/// One leaderboard page assembled from the full ranked list: the requested
/// page slice, the total row count, and the effective page parameters
/// (defaulting to page 1 with 50 rows).
pub fn build_leaderboard_output(
    contest_id: i32,
    problems: Vec<Problem>,
    entries: Vec<LeaderboardEntry>,
    page: Option<i32>,
    page_size: Option<i32>,
) -> (r: GetLeaderboardOutput)
    ensures
        r.contest_id == contest_id,
        r.problems == problems,
        r.total_count as int == clamp_i32(entries@.len() as int),
        r.page == (match page {
            Some(p) => p,
            None => 1,
        }),
        r.page_size == (match page_size {
            Some(s) => s,
            None => 50,
        }),
        r.entries@ == page_slice(entries@, r.page as int, r.page_size as int),
{
    let p: i32 = match page {
        Some(x) => x,
        None => 1,
    };
    let s: i32 = match page_size {
        Some(x) => x,
        None => 50,
    };
    let total_count: i32 = if entries.len() >= 0x7fffffff {
        i32::MAX
    } else {
        entries.len() as i32
    };
    let sliced = paginate_entries(entries, p, s);
    GetLeaderboardOutput { contest_id, problems, entries: sliced, total_count, page: p, page_size: s }
}

/// The all-absent output for a submission-detail query whose submission
/// does not exist.
pub fn empty_submission_detail() -> (r: GetSubmissionDetailOutput)
    ensures
        r.submission is None,
        r.judge_result is None,
        r.test_case_results@.len() == 0,
        r.subtask_results@.len() == 0,
        r.problem_config is None,
{
    GetSubmissionDetailOutput {
        submission: None,
        judge_result: None,
        test_case_results: Vec::new(),
        subtask_results: Vec::new(),
        problem_config: None,
    }
}

/// The detail of an existing submission: the record (its code blanked
/// unless requested), its judge result, its test-case results, the derived
/// subtask results, and the configuration they were derived under.
pub fn build_submission_detail(
    submission: Submission,
    include_code: bool,
    judge_result: Option<JudgeResult>,
    test_case_results: Vec<TestCaseResult>,
    config: ProblemIOIConfig,
) -> (r: GetSubmissionDetailOutput)
    ensures
        r.submission matches Some(s) && {
            &&& s.id == submission.id
            &&& s.language == submission.language
            &&& s.status == submission.status
            &&& s.user_id == submission.user_id
            &&& s.problem_id == submission.problem_id
            &&& s.created_at == submission.created_at
            &&& include_code ==> s.code == submission.code
            &&& !include_code ==> s.code@ == Seq::<char>::empty()
        },
        r.judge_result == judge_result,
        r.test_case_results == test_case_results,
        r.problem_config matches Some(c) && c == config,
        !config.subtask_enabled ==> r.subtask_results@.len() == 0,
        config.subtask_enabled ==> r.subtask_results@.len() == config.subtasks@.len(),
        forall|k: int|
            0 <= k < r.subtask_results@.len() ==> is_subtask_result_for(
                r.subtask_results@[k],
                test_case_results@,
                config.subtasks@[k],
            ),
{
    let submission_out: Submission = if include_code {
        submission
    } else {
        Submission { code: String::new(), ..submission }
    };
    let subtask_results = compute_subtask_results(&test_case_results, &config);
    GetSubmissionDetailOutput {
        submission: Some(submission_out),
        judge_result,
        test_case_results,
        subtask_results,
        problem_config: Some(config),
    }
}

/// The recomputed judge result of one submission, together with its
/// per-subtask results: the total score, the overall verdict, and the peak
/// resource usage, re-derived from the test-case results under the
/// problem's configuration.
pub fn finalize_submission_score(
    judge_result: &JudgeResult,
    test_case_results: &Vec<TestCaseResult>,
    config: &ProblemIOIConfig,
) -> (r: (JudgeResult, Vec<SubtaskResult>))
    ensures
        !config.subtask_enabled ==> r.1@.len() == 0,
        config.subtask_enabled ==> r.1@.len() == config.subtasks@.len(),
        forall|k: int|
            0 <= k < r.1@.len() ==> is_subtask_result_for(
                r.1@[k],
                test_case_results@,
                config.subtasks@[k],
            ),
        r.0.id == judge_result.id,
        r.0.submission_id == judge_result.submission_id,
        r.0.created_at == judge_result.created_at,
        r.0.score as int == total_from_test_cases(test_case_results@, *config),
        r.0.verdict == overall_verdict(
            r.1@,
            r.0.score as int,
            problem_max_score_of(*config),
        ),
        r.0.time_used as int == seq_max_time(test_case_results@),
        r.0.memory_used as int == seq_max_memory(test_case_results@),
{
    let subtask_results = compute_subtask_results(test_case_results, config);
    let total_score = compute_total_score_from_test_cases(test_case_results, config);
    let max_score = problem_max_score(config);
    let verdict = determine_overall_verdict(&subtask_results, total_score, max_score);
    let time_used = max_time_used(test_case_results);
    let memory_used = max_memory_used(test_case_results);
    let updated = JudgeResult {
        id: judge_result.id,
        verdict,
        score: total_score,
        time_used,
        memory_used,
        submission_id: judge_result.submission_id,
        created_at: judge_result.created_at.clone(),
    };
    (updated, subtask_results)
}

/// The structured failure output for a score calculation whose submission
/// does not exist.
pub fn score_output_not_found(submission_id: i32) -> (r: CalculateScoreOutput)
    ensures
        !r.success,
        r.submission_id == submission_id,
        r.score == 0,
        r.verdict == Verdict::NotFound,
        r.subtask_results@.len() == 0,
        r.message@ == "Submission not found"@,
{
    CalculateScoreOutput {
        success: false,
        submission_id,
        score: 0,
        verdict: Verdict::NotFound,
        subtask_results: Vec::new(),
        message: "Submission not found".to_string(),
    }
}

/// The structured failure output for a score calculation whose submission
/// has no judge result yet.
pub fn score_output_not_judged(submission_id: i32) -> (r: CalculateScoreOutput)
    ensures
        !r.success,
        r.submission_id == submission_id,
        r.score == 0,
        r.verdict == Verdict::NotJudged,
        r.subtask_results@.len() == 0,
        r.message@ == "Judge result not found"@,
{
    CalculateScoreOutput {
        success: false,
        submission_id,
        score: 0,
        verdict: Verdict::NotJudged,
        subtask_results: Vec::new(),
        message: "Judge result not found".to_string(),
    }
}

/// The configuration record described by a configuration request.
pub fn make_problem_config(input: ConfigureProblemInput) -> (r: ProblemIOIConfig)
    ensures
        r.problem_id == input.problem_id,
        r.subtask_enabled == input.subtask_enabled,
        r.final_score_method == input.final_score_method,
        r.subtasks == input.subtasks,
{
    ProblemIOIConfig {
        problem_id: input.problem_id,
        subtask_enabled: input.subtask_enabled,
        final_score_method: input.final_score_method,
        subtasks: input.subtasks,
    }
}

} // verus!
