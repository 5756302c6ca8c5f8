//! Leaderboard construction, ranking, pagination, and the mock store's
//! behaviour.

use ioi_scoring::leaderboard::{calculate_leaderboard, paginate_entries, problem_max_score};
use ioi_scoring::mock::{apply_judge_result_update, get_base_submissions, get_mock_judge_result,
    get_mock_problem_config, get_mock_problems, get_mock_submission_by_id, get_mock_submissions,
    get_mock_test_case_results, get_mock_users, get_stored_subtask_results, reset_mock_state,
    store_subtask_results, MockState};
use ioi_scoring::models::{FinalScoreMethod, JudgeResult, LeaderboardEntry, Problem,
    ProblemIOIConfig, Submission, SubmissionWithResult, SubtaskResult, TestCaseResult, User,
    Verdict};
use ioi_scoring::ops::{build_leaderboard_output, build_submission_detail,
    empty_submission_detail};

fn user(id: i32, name: &str) -> User {
    User { id, username: String::from(name), created_at: String::from("2024-01-01T00:00:00Z") }
}

fn problem(id: i32, title: &str) -> Problem {
    Problem {
        id,
        title: String::from(title),
        content: String::new(),
        time_limit: 1000,
        memory_limit: 262144,
        created_at: String::from("2024-01-01T00:00:00Z"),
    }
}

fn flat_config(problem_id: i32) -> ProblemIOIConfig {
    ProblemIOIConfig {
        problem_id,
        subtask_enabled: false,
        final_score_method: FinalScoreMethod::BestSubmission,
        subtasks: vec![],
    }
}

fn swr_with_stored(id: i32, user_id: i32, problem_id: i32, stored: i32) -> SubmissionWithResult {
    SubmissionWithResult {
        submission: Submission {
            id,
            code: String::new(),
            language: String::from("cpp"),
            status: String::from("Finished"),
            user_id,
            problem_id,
            created_at: String::from("2024-01-01T10:00:00Z"),
        },
        result: Some(JudgeResult {
            id,
            verdict: Verdict::Pending,
            score: stored,
            time_used: 0,
            memory_used: 0,
            submission_id: id,
            created_at: String::from("2024-01-01T10:00:01Z"),
        }),
        test_case_results: vec![],
    }
}

fn entry(id: i32, total: i32) -> LeaderboardEntry {
    LeaderboardEntry {
        rank: 0,
        user: user(id, "someone"),
        problem_scores: vec![],
        total_score: total,
    }
}

#[test]
fn dense_ranks_share_and_skip() {
    // totals 100, 100, 60 give ranks 1, 1, 3
    let users = vec![user(1, "a"), user(2, "b"), user(3, "c")];
    let problems = vec![problem(1, "P1")];
    let configs = vec![flat_config(1)];
    let submissions = vec![
        swr_with_stored(1, 1, 1, 100),
        swr_with_stored(2, 2, 1, 100),
        swr_with_stored(3, 3, 1, 60),
    ];
    let entries = calculate_leaderboard(users, problems, submissions, &configs);
    assert_eq!(entries.len(), 3);
    assert_eq!(entries[0].total_score, 100);
    assert_eq!(entries[1].total_score, 100);
    assert_eq!(entries[2].total_score, 60);
    assert_eq!(entries[0].rank, 1);
    assert_eq!(entries[1].rank, 1);
    assert_eq!(entries[2].rank, 3);
}

#[test]
fn ties_keep_the_users_input_order() {
    let users = vec![user(7, "first"), user(3, "second"), user(9, "third")];
    let problems = vec![problem(1, "P1")];
    let configs = vec![flat_config(1)];
    let submissions = vec![
        swr_with_stored(1, 7, 1, 50),
        swr_with_stored(2, 3, 1, 80),
        swr_with_stored(3, 9, 1, 50),
    ];
    let entries = calculate_leaderboard(users, problems, submissions, &configs);
    assert_eq!(entries[0].user.id, 3);
    // the two tied users appear in their input order: 7 before 9
    assert_eq!(entries[1].user.id, 7);
    assert_eq!(entries[2].user.id, 9);
    assert_eq!(entries[1].rank, 2);
    assert_eq!(entries[2].rank, 2);
}

#[test]
fn per_problem_rows_carry_scores_and_counts() {
    let users = vec![user(1, "a")];
    let problems = vec![problem(1, "P1"), problem(2, "P2")];
    let configs = vec![flat_config(1), flat_config(2)];
    let submissions = vec![
        swr_with_stored(1, 1, 1, 40),
        swr_with_stored(2, 1, 1, 70),
        swr_with_stored(3, 1, 2, 15),
    ];
    let entries = calculate_leaderboard(users, problems, submissions, &configs);
    assert_eq!(entries.len(), 1);
    let e = &entries[0];
    assert_eq!(e.total_score, 85);
    assert_eq!(e.problem_scores.len(), 2);
    assert_eq!(e.problem_scores[0].score, 70);
    assert_eq!(e.problem_scores[0].submission_count, 2);
    assert_eq!(e.problem_scores[0].max_score, 100);
    assert_eq!(e.problem_scores[1].score, 15);
    assert_eq!(e.problem_scores[1].submission_count, 1);
    assert_eq!(e.problem_scores[0].problem_title, "P1");
}

#[test]
fn pagination_concatenates_to_the_whole_list() {
    let entries: Vec<LeaderboardEntry> = (1..=5).map(|i| entry(i, 100 - i)).collect();
    let mut seen: Vec<i32> = Vec::new();
    for page in 1..=3 {
        let slice = paginate_entries(entries.clone(), page, 2);
        for e in &slice {
            seen.push(e.user.id);
        }
    }
    assert_eq!(seen, vec![1, 2, 3, 4, 5]);
    let beyond = paginate_entries(entries.clone(), 4, 2);
    assert!(beyond.is_empty());
}

#[test]
fn page_beyond_the_end_is_empty_not_an_error() {
    let entries: Vec<LeaderboardEntry> = (1..=3).map(|i| entry(i, i)).collect();
    assert!(paginate_entries(entries.clone(), 100, 50).is_empty());
    assert!(paginate_entries(entries.clone(), 0, 50).is_empty());
    assert!(paginate_entries(entries, 1, 0).is_empty());
}

#[test]
fn leaderboard_output_defaults_page_and_size() {
    let entries: Vec<LeaderboardEntry> = (1..=3).map(|i| entry(i, i)).collect();
    let out = build_leaderboard_output(42, vec![problem(1, "P1")], entries, None, None);
    assert_eq!(out.contest_id, 42);
    assert_eq!(out.page, 1);
    assert_eq!(out.page_size, 50);
    assert_eq!(out.total_count, 3);
    assert_eq!(out.entries.len(), 3);
    assert_eq!(out.problems.len(), 1);
}

#[test]
fn leaderboard_output_slices_the_requested_page() {
    let entries: Vec<LeaderboardEntry> = (1..=5).map(|i| entry(i, 100 - i)).collect();
    let out = build_leaderboard_output(1, vec![], entries, Some(2), Some(2));
    assert_eq!(out.page, 2);
    assert_eq!(out.page_size, 2);
    assert_eq!(out.total_count, 5);
    assert_eq!(out.entries.len(), 2);
    assert_eq!(out.entries[0].user.id, 3);
    assert_eq!(out.entries[1].user.id, 4);
}

#[test]
fn problem_max_score_sums_subtasks_or_defaults() {
    let cfg = get_mock_problem_config(1);
    assert_eq!(problem_max_score(&cfg), 100);
    let flat = flat_config(9);
    assert_eq!(problem_max_score(&flat), 100);
    let cfg2 = get_mock_problem_config(3);
    assert_eq!(problem_max_score(&cfg2), 100);
}

#[test]
fn mock_store_round_trips_updates() {
    let mut state = MockState::new();
    let before = get_mock_submissions(&state, 1);
    assert_eq!(before.len(), 6);
    assert_eq!(before[0].result.as_ref().unwrap().score, 0);

    let updated = JudgeResult {
        id: 1,
        verdict: Verdict::Accepted,
        score: 100,
        time_used: 15,
        memory_used: 1024,
        submission_id: 1,
        created_at: String::from("2024-01-01T10:00:01Z"),
    };
    apply_judge_result_update(&mut state, updated);
    let after = get_mock_submissions(&state, 1);
    let jr = after[0].result.as_ref().unwrap();
    assert_eq!(jr.score, 100);
    assert_eq!(jr.verdict, Verdict::Accepted);
    assert_eq!(jr.time_used, 15);
    // the other submissions keep their base state
    assert_eq!(after[1].result.as_ref().unwrap().score, 0);

    let found = get_mock_judge_result(&state, 1);
    assert_eq!(found.len(), 1);
    assert_eq!(found[0].score, 100);

    reset_mock_state(&mut state);
    let reset = get_mock_submissions(&state, 1);
    assert_eq!(reset[0].result.as_ref().unwrap().score, 0);
}

#[test]
fn mock_store_caches_subtask_results() {
    let mut state = MockState::new();
    assert!(get_stored_subtask_results(&state, 5).is_none());
    let results = vec![SubtaskResult {
        subtask_id: 1,
        subtask_name: String::from("Subtask 1"),
        score: 30,
        max_score: 30,
        verdict: Verdict::Accepted,
        time_used: 5,
        memory_used: 512,
    }];
    store_subtask_results(&mut state, 5, results);
    let got = get_stored_subtask_results(&state, 5).expect("cached results");
    assert_eq!(got.len(), 1);
    assert_eq!(got[0].score, 30);
    assert_eq!(got[0].subtask_name, "Subtask 1");
}

#[test]
fn mock_records_have_the_documented_shape() {
    assert_eq!(get_mock_problems(1).len(), 3);
    assert_eq!(get_mock_users(1).len(), 3);
    assert_eq!(get_base_submissions().len(), 6);
    assert_eq!(get_mock_test_case_results(2).len(), 7);
    assert!(get_mock_test_case_results(99).is_empty());

    let found = get_mock_submission_by_id(3);
    assert_eq!(found.len(), 1);
    assert_eq!(found[0].id, 3);
    assert!(!found[0].code.is_empty());
    assert!(get_mock_submission_by_id(42).is_empty());

    let default_cfg = get_mock_problem_config(99);
    assert!(!default_cfg.subtask_enabled);
    assert_eq!(default_cfg.problem_id, 99);
    assert_eq!(default_cfg.final_score_method, FinalScoreMethod::BestSubmission);
}

#[test]
fn full_leaderboard_over_the_sample_contest() {
    // stored totals are all 0 before finalization, so every user totals 0
    // and shares rank 1; after overlaying recomputed scores the order is
    // alice (130), bob (160), charlie (0 -> stored totals only)
    let state = MockState::new();
    let users = get_mock_users(1);
    let problems = vec![problem(1, "P1"), problem(2, "P2")];
    let configs = vec![get_mock_problem_config(1), get_mock_problem_config(2)];
    let submissions = get_mock_submissions(&state, 1);
    let entries = calculate_leaderboard(users, problems, submissions, &configs);
    assert_eq!(entries.len(), 3);
    assert_eq!(entries[0].rank, 1);
    assert_eq!(entries[1].rank, 1);
    assert_eq!(entries[2].rank, 1);
}

#[test]
fn submission_detail_blanks_code_unless_asked() {
    let sub = get_mock_submission_by_id(1).remove(0);
    let cfg = get_mock_problem_config(1);
    let tcs: Vec<TestCaseResult> = get_mock_test_case_results(1);
    let detail = build_submission_detail(sub.clone(), false, None, tcs.clone(), cfg);
    let inner = detail.submission.expect("a submission");
    assert!(inner.code.is_empty());
    assert_eq!(inner.id, 1);
    assert_eq!(detail.test_case_results.len(), 7);
    assert_eq!(detail.subtask_results.len(), 3);
    assert_eq!(detail.subtask_results[0].score, 30);

    let cfg2 = get_mock_problem_config(1);
    let detail2 = build_submission_detail(sub, true, None, tcs, cfg2);
    assert!(!detail2.submission.expect("a submission").code.is_empty());
}

#[test]
fn missing_submission_detail_is_all_absent() {
    let detail = empty_submission_detail();
    assert!(detail.submission.is_none());
    assert!(detail.judge_result.is_none());
    assert!(detail.test_case_results.is_empty());
    assert!(detail.subtask_results.is_empty());
    assert!(detail.problem_config.is_none());
}
