//! Data model for the scoring engine: judged records, per-problem scoring
//! configuration, and the derived result types that the engine produces.

use vstd::prelude::*;

verus! {

/// Outcome tag for a test case, subtask, or whole submission.
///
/// Modelled as a closed enumeration rather than free-form text so that
/// scoring rules can match on it exhaustively.
#[derive(Clone, Copy, Debug, PartialEq, Eq, Structural)]
pub enum Verdict {
    Accepted,
    PartiallyCorrect,
    WrongAnswer,
    TimeLimitExceeded,
    MemoryLimitExceeded,
    RuntimeError,
    Pending,
    NoData,
    Unknown,
    NotFound,
    NotJudged,
}

/// How the test-case scores of one subtask combine into the subtask score.
#[derive(Clone, Copy, Debug, PartialEq, Eq, Structural)]
pub enum SubtaskScoringMethod {
    /// All-or-nothing: the subtask's max score if every test case is
    /// `Accepted`, otherwise 0.
    GroupMin,
    /// Arithmetic sum of the test-case scores.
    Sum,
    /// Partial credit: the max score scaled by the product of per-test
    /// completion ratios.
    GroupMul,
}

impl Default for SubtaskScoringMethod {
    fn default() -> (r: Self)
        ensures
            r == SubtaskScoringMethod::GroupMin,
    {
        SubtaskScoringMethod::GroupMin
    }
}

/// How the scores of a user's submissions combine into the problem score.
#[derive(Clone, Copy, Debug, PartialEq, Eq, Structural)]
pub enum FinalScoreMethod {
    /// The best stored total score among the submissions.
    BestSubmission,
    /// For each subtask, the best score across all submissions; the final
    /// score is the sum of these per-subtask maxima.
    BestSubtaskSum,
}

impl Default for FinalScoreMethod {
    fn default() -> (r: Self)
        ensures
            r == FinalScoreMethod::BestSubmission,
    {
        FinalScoreMethod::BestSubmission
    }
}

/// A contest participant.
#[derive(Debug)]
pub struct User {
    pub id: i32,
    pub username: String,
    pub created_at: String,
}

impl Clone for User {
    fn clone(&self) -> (res: Self)
        ensures
            res == *self,
    {
        User { id: self.id, username: self.username.clone(), created_at: self.created_at.clone() }
    }
}

/// A contest problem.
#[derive(Debug)]
pub struct Problem {
    pub id: i32,
    pub title: String,
    pub content: String,
    pub time_limit: i32,
    pub memory_limit: i32,
    pub created_at: String,
}

impl Clone for Problem {
    fn clone(&self) -> (res: Self)
        ensures
            res == *self,
    {
        Problem {
            id: self.id,
            title: self.title.clone(),
            content: self.content.clone(),
            time_limit: self.time_limit,
            memory_limit: self.memory_limit,
            created_at: self.created_at.clone(),
        }
    }
}

/// A single test case of a problem.
#[derive(Debug)]
pub struct TestCase {
    pub id: i32,
    pub problem_id: i32,
    pub input: String,
    pub expected_output: String,
    pub score: i32,
    pub created_at: String,
}

impl Clone for TestCase {
    fn clone(&self) -> (res: Self)
        ensures
            res == *self,
    {
        TestCase {
            id: self.id,
            problem_id: self.problem_id,
            input: self.input.clone(),
            expected_output: self.expected_output.clone(),
            score: self.score,
            created_at: self.created_at.clone(),
        }
    }
}

/// One submitted solution attempt.
#[derive(Debug)]
pub struct Submission {
    pub id: i32,
    pub code: String,
    pub language: String,
    pub status: String,
    pub user_id: i32,
    pub problem_id: i32,
    pub created_at: String,
}

impl Clone for Submission {
    fn clone(&self) -> (res: Self)
        ensures
            res == *self,
    {
        Submission {
            id: self.id,
            code: self.code.clone(),
            language: self.language.clone(),
            status: self.status.clone(),
            user_id: self.user_id,
            problem_id: self.problem_id,
            created_at: self.created_at.clone(),
        }
    }
}

/// One judging run of one submission. The engine may recompute and overwrite
/// `verdict`, `score`, `time_used` and `memory_used` after scoring.
#[derive(Debug)]
pub struct JudgeResult {
    pub id: i32,
    pub verdict: Verdict,
    pub score: i32,
    pub time_used: i32,
    pub memory_used: i32,
    pub submission_id: i32,
    pub created_at: String,
}

impl Clone for JudgeResult {
    fn clone(&self) -> (res: Self)
        ensures
            res == *self,
    {
        JudgeResult {
            id: self.id,
            verdict: self.verdict,
            score: self.score,
            time_used: self.time_used,
            memory_used: self.memory_used,
            submission_id: self.submission_id,
            created_at: self.created_at.clone(),
        }
    }
}

/// One test case's judged outcome within one judging run.
#[derive(Debug)]
pub struct TestCaseResult {
    pub id: i32,
    pub judge_result_id: i32,
    pub test_case_id: i32,
    pub verdict: Verdict,
    pub score: i32,
    pub time_used: i32,
    pub memory_used: i32,
    pub created_at: String,
}

impl Clone for TestCaseResult {
    fn clone(&self) -> (res: Self)
        ensures
            res == *self,
    {
        TestCaseResult {
            id: self.id,
            judge_result_id: self.judge_result_id,
            test_case_id: self.test_case_id,
            verdict: self.verdict,
            score: self.score,
            time_used: self.time_used,
            memory_used: self.memory_used,
            created_at: self.created_at.clone(),
        }
    }
}

/// A contest.
#[derive(Debug)]
pub struct Contest {
    pub id: i32,
    pub title: String,
    pub description: String,
    pub start_time: String,
    pub end_time: String,
    pub created_at: String,
}

impl Clone for Contest {
    fn clone(&self) -> (res: Self)
        ensures
            res == *self,
    {
        Contest {
            id: self.id,
            title: self.title.clone(),
            description: self.description.clone(),
            start_time: self.start_time.clone(),
            end_time: self.end_time.clone(),
            created_at: self.created_at.clone(),
        }
    }
}

/// A submission together with its (optional) judge result and the full list
/// of its test-case results: the unit the engine reasons about per attempt.
#[derive(Debug, Clone)]
pub struct SubmissionWithResult {
    pub submission: Submission,
    pub result: Option<JudgeResult>,
    pub test_case_results: Vec<TestCaseResult>,
}

/// Static definition of one subtask: a named group of test cases scored as
/// a unit under one scoring method.
#[derive(Debug)]
pub struct SubtaskConfig {
    pub id: i32,
    pub name: String,
    pub max_score: i32,
    pub scoring_method: SubtaskScoringMethod,
    pub test_case_ids: Vec<i32>,
}

impl Clone for SubtaskConfig {
    fn clone(&self) -> (res: Self)
        ensures
            res.id == self.id,
            res.name == self.name,
            res.max_score == self.max_score,
            res.scoring_method == self.scoring_method,
            res.test_case_ids@ == self.test_case_ids@,
    {
        SubtaskConfig {
            id: self.id,
            name: self.name.clone(),
            max_score: self.max_score,
            scoring_method: self.scoring_method,
            test_case_ids: self.test_case_ids.clone(),
        }
    }
}

/// Per-problem scoring configuration.
#[derive(Debug, Clone)]
pub struct ProblemIOIConfig {
    pub problem_id: i32,
    /// Whether subtask mode is enabled for this problem. When disabled the
    /// problem is scored as a flat sum of test-case scores.
    pub subtask_enabled: bool,
    /// How the scores of multiple submissions combine into the final score.
    pub final_score_method: FinalScoreMethod,
    /// The ordered subtask definitions (used only when subtask mode is on).
    pub subtasks: Vec<SubtaskConfig>,
}

impl Default for ProblemIOIConfig {
    /// The documented default used when no configuration is stored:
    /// subtask mode disabled, best-submission final scoring.
    fn default() -> (r: Self)
        ensures
            r.problem_id == 0,
            !r.subtask_enabled,
            r.final_score_method == FinalScoreMethod::BestSubmission,
            r.subtasks@.len() == 0,
    {
        ProblemIOIConfig {
            problem_id: 0,
            subtask_enabled: false,
            final_score_method: FinalScoreMethod::BestSubmission,
            subtasks: Vec::new(),
        }
    }
}

/// Derived result of scoring one subtask for one submission.
#[derive(Debug)]
pub struct SubtaskResult {
    pub subtask_id: i32,
    pub subtask_name: String,
    pub score: i32,
    pub max_score: i32,
    pub verdict: Verdict,
    pub time_used: i32,
    pub memory_used: i32,
}

impl Clone for SubtaskResult {
    fn clone(&self) -> (res: Self)
        ensures
            res == *self,
    {
        SubtaskResult {
            subtask_id: self.subtask_id,
            subtask_name: self.subtask_name.clone(),
            score: self.score,
            max_score: self.max_score,
            verdict: self.verdict,
            time_used: self.time_used,
            memory_used: self.memory_used,
        }
    }
}

/// Request shape for a leaderboard query.
#[derive(Debug)]
pub struct GetLeaderboardInput {
    pub contest_id: i32,
    pub page: Option<i32>,
    pub page_size: Option<i32>,
}

/// One page of a ranked contest leaderboard.
#[derive(Debug)]
pub struct GetLeaderboardOutput {
    pub contest_id: i32,
    pub problems: Vec<Problem>,
    pub entries: Vec<LeaderboardEntry>,
    pub total_count: i32,
    pub page: i32,
    pub page_size: i32,
}

/// One ranked leaderboard row: a user, their per-problem scores, and their
/// total score.
#[derive(Debug, Clone)]
pub struct LeaderboardEntry {
    pub rank: i32,
    pub user: User,
    pub problem_scores: Vec<ProblemScore>,
    pub total_score: i32,
}

/// A user's score for a single problem.
#[derive(Debug, Clone)]
pub struct ProblemScore {
    pub problem_id: i32,
    pub problem_title: String,
    pub score: i32,
    pub max_score: i32,
    pub submission_count: i32,
    /// Per-subtask best scores; present only under `BestSubtaskSum`.
    pub subtask_scores: Option<Vec<SubtaskBestScore>>,
}

/// The best score achieved for one subtask across all of a user's
/// submissions.
#[derive(Debug)]
pub struct SubtaskBestScore {
    pub subtask_id: i32,
    pub subtask_name: String,
    pub best_score: i32,
    pub max_score: i32,
}

impl Clone for SubtaskBestScore {
    fn clone(&self) -> (res: Self)
        ensures
            res == *self,
    {
        SubtaskBestScore {
            subtask_id: self.subtask_id,
            subtask_name: self.subtask_name.clone(),
            best_score: self.best_score,
            max_score: self.max_score,
        }
    }
}

/// Request shape for a submission-detail query.
#[derive(Debug)]
pub struct GetSubmissionDetailInput {
    pub submission_id: i32,
    pub include_code: Option<bool>,
}

/// Full detail of one submission: the record itself, its judge result, its
/// test-case results, and the derived subtask results.
#[derive(Debug)]
pub struct GetSubmissionDetailOutput {
    pub submission: Option<Submission>,
    pub judge_result: Option<JudgeResult>,
    pub test_case_results: Vec<TestCaseResult>,
    pub subtask_results: Vec<SubtaskResult>,
    pub problem_config: Option<ProblemIOIConfig>,
}

/// Request shape for configuring a problem's scoring.
#[derive(Debug)]
pub struct ConfigureProblemInput {
    pub problem_id: i32,
    pub subtask_enabled: bool,
    pub final_score_method: FinalScoreMethod,
    pub subtasks: Vec<SubtaskConfig>,
}

/// Outcome of a configuration operation.
#[derive(Debug)]
pub struct ConfigureOutput {
    pub success: bool,
    pub message: String,
}

/// Request shape for reading a problem's scoring configuration.
#[derive(Debug)]
pub struct GetProblemConfigInput {
    pub problem_id: i32,
}

/// Request shape for finalizing a submission's score.
#[derive(Debug)]
pub struct CalculateScoreInput {
    pub submission_id: i32,
}

/// Outcome of finalizing a submission's score.
#[derive(Debug)]
pub struct CalculateScoreOutput {
    pub success: bool,
    pub submission_id: i32,
    pub score: i32,
    pub verdict: Verdict,
    pub subtask_results: Vec<SubtaskResult>,
    pub message: String,
}

/// Outcome reported by the record store for a write operation.
#[derive(Debug, Clone)]
pub struct DbUpdateResult {
    pub success: bool,
    pub affected_rows: i32,
    pub message: Option<String>,
}

} // verus!
