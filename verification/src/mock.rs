//! An in-memory test double for the record store: fixed sample records,
//! plus an explicit overlay of judge-result updates so that a write
//! followed by a read behaves like a real store.
//!
//! The overlay lives in a `MockState` value owned by the caller, never in
//! ambient global state.

use vstd::prelude::*;
use crate::models::{FinalScoreMethod, JudgeResult, Problem, ProblemIOIConfig, Submission,
    SubmissionWithResult, SubtaskConfig, SubtaskResult, SubtaskScoringMethod, TestCaseResult,
    User, Verdict};

verus! {

/// The mutable state of the mock record store.
pub struct MockState {
    /// Judge-result updates, in application order: `(judge_result_id, record)`.
    pub judge_result_updates: Vec<(i32, JudgeResult)>,
    /// Stored subtask results per submission id, in application order.
    pub subtask_results_cache: Vec<(i32, Vec<SubtaskResult>)>,
}

/// The most recently stored judge-result update for the given id.
pub open spec fn lookup_judge_update(s: Seq<(i32, JudgeResult)>, id: i32) -> Option<JudgeResult>
    decreases s.len(),
{
    if s.len() == 0 {
        None
    } else if s.last().0 == id {
        Some(s.last().1)
    } else {
        lookup_judge_update(s.drop_last(), id)
    }
}

/// The most recently stored subtask results for the given submission id.
pub open spec fn lookup_subtask_cache(s: Seq<(i32, Vec<SubtaskResult>)>, id: i32) -> Option<
    Vec<SubtaskResult>,
>
    decreases s.len(),
{
    if s.len() == 0 {
        None
    } else if s.last().0 == id {
        Some(s.last().1)
    } else {
        lookup_subtask_cache(s.drop_last(), id)
    }
}

/// A judge result with an update overlaid: the scoring fields come from
/// the update, everything else from the original record.
pub open spec fn overlay_judge_result(jr: JudgeResult, upd: Option<JudgeResult>) -> JudgeResult {
    match upd {
        None => jr,
        Some(u) => JudgeResult {
            verdict: u.verdict,
            score: u.score,
            time_used: u.time_used,
            memory_used: u.memory_used,
            ..jr
        },
    }
}

impl MockState {
    /// A store with no updates applied.
    pub fn new() -> (r: MockState)
        ensures
            r.judge_result_updates@.len() == 0,
            r.subtask_results_cache@.len() == 0,
    {
        MockState { judge_result_updates: Vec::new(), subtask_results_cache: Vec::new() }
    }
}

/// Records a judge-result update in the mock store.
pub fn apply_judge_result_update(state: &mut MockState, judge_result: JudgeResult)
    ensures
        final(state).judge_result_updates@ == old(state).judge_result_updates@.push(
            (judge_result.id, judge_result),
        ),
        final(state).subtask_results_cache == old(state).subtask_results_cache,
{
    let key = judge_result.id;
    state.judge_result_updates.push((key, judge_result));
}

/// Stores the subtask results of one submission in the mock store.
pub fn store_subtask_results(state: &mut MockState, submission_id: i32, results: Vec<SubtaskResult>)
    ensures
        final(state).subtask_results_cache@ == old(state).subtask_results_cache@.push(
            (submission_id, results),
        ),
        final(state).judge_result_updates == old(state).judge_result_updates,
{
    state.subtask_results_cache.push((submission_id, results));
}

/// The stored subtask results of one submission, if any.
pub fn get_stored_subtask_results(state: &MockState, submission_id: i32) -> (r: Option<
    Vec<SubtaskResult>,
>)
    ensures
        lookup_subtask_cache(state.subtask_results_cache@, submission_id) is None ==> r is None,
        lookup_subtask_cache(state.subtask_results_cache@, submission_id) matches Some(v) ==> (
        r matches Some(w) && w@ == v@),
{
    let cache = &state.subtask_results_cache;
    let mut j: usize = cache.len();
    proof {
        assert(cache@.take(cache@.len() as int) =~= cache@);
    }
    while j > 0
        invariant
            j <= cache@.len(),
            cache@ == state.subtask_results_cache@,
            lookup_subtask_cache(cache@, submission_id) == lookup_subtask_cache(
                cache@.take(j as int),
                submission_id,
            ),
        decreases j,
    {
        j = j - 1;
        proof {
            assert(cache@.take(j as int + 1).drop_last() =~= cache@.take(j as int));
            assert(cache@.take(j as int + 1).last() == cache@[j as int]);
        }
        if cache[j].0 == submission_id {
            proof {
                assert(lookup_subtask_cache(cache@.take(j as int + 1), submission_id) == Some(
                    cache@[j as int].1,
                ));
                assert(lookup_subtask_cache(cache@, submission_id) == Some(cache@[j as int].1));
            }
            let mut copy: Vec<SubtaskResult> = Vec::new();
            let src = &cache[j].1;
            let mut i: usize = 0;
            while i < src.len()
                invariant
                    i <= src@.len(),
                    copy@ =~= src@.take(i as int),
                decreases src@.len() - i,
            {
                copy.push(src[i].clone());
                i = i + 1;
            }
            proof {
                assert(copy@ =~= src@);
            }
            return Some(copy);
        }
    }
    proof {
        assert(cache@.take(0) =~= Seq::<(i32, Vec<SubtaskResult>)>::empty());
    }
    None
}

/// Clears all recorded updates and cached results.
pub fn reset_mock_state(state: &mut MockState)
    ensures
        final(state).judge_result_updates@.len() == 0,
        final(state).subtask_results_cache@.len() == 0,
{
    state.judge_result_updates.clear();
    state.subtask_results_cache.clear();
}

/// The fixed sample problems of the mock contest.
pub fn get_mock_problems(_contest_id: i32) -> (r: Vec<Problem>)
    ensures
        r@.len() == 3,
        forall|i: int| 0 <= i < 3 ==> (#[trigger] r@[i]).id == i + 1,
{
    let mut out: Vec<Problem> = Vec::new();
    out.push(
        Problem {
            id: 1,
            title: "Problem A - Sum".to_string(),
            content: "Calculate the sum of two integers.".to_string(),
            time_limit: 1000,
            memory_limit: 262144,
            created_at: "2024-01-01T00:00:00Z".to_string(),
        },
    );
    out.push(
        Problem {
            id: 2,
            title: "Problem B - Graph".to_string(),
            content: "Find the shortest path in a graph.".to_string(),
            time_limit: 2000,
            memory_limit: 524288,
            created_at: "2024-01-01T00:00:00Z".to_string(),
        },
    );
    out.push(
        Problem {
            id: 3,
            title: "Problem C - Tree".to_string(),
            content: "Calculate tree DP.".to_string(),
            time_limit: 3000,
            memory_limit: 524288,
            created_at: "2024-01-01T00:00:00Z".to_string(),
        },
    );
    out
}

/// The fixed sample users of the mock contest.
pub fn get_mock_users(_contest_id: i32) -> (r: Vec<User>)
    ensures
        r@.len() == 3,
        forall|i: int| 0 <= i < 3 ==> (#[trigger] r@[i]).id == i + 1,
{
    let mut out: Vec<User> = Vec::new();
    out.push(
        User {
            id: 1,
            username: "alice".to_string(),
            created_at: "2024-01-01T00:00:00Z".to_string(),
        },
    );
    out.push(
        User {
            id: 2,
            username: "bob".to_string(),
            created_at: "2024-01-01T00:00:00Z".to_string(),
        },
    );
    out.push(
        User {
            id: 3,
            username: "charlie".to_string(),
            created_at: "2024-01-01T00:00:00Z".to_string(),
        },
    );
    out
}

/// The owning user of the sample submission at the given index.
pub open spec fn mock_user_of(idx: int) -> int {
    if idx < 2 {
        1
    } else if idx < 4 {
        2
    } else {
        3
    }
}

/// The problem of the sample submission at the given index.
pub open spec fn mock_problem_of(idx: int) -> int {
    if idx == 0 || idx == 2 || idx >= 4 {
        1
    } else {
        2
    }
}

/// Shape of the sample submission at index `idx`, with the judge-result
/// overlay from `ups` applied.
pub open spec fn mock_submission_shape(s: SubmissionWithResult, idx: int, ups: Seq<(i32, JudgeResult)>) -> bool {
    &&& s.submission.id == idx + 1
    &&& s.submission.user_id == mock_user_of(idx)
    &&& s.submission.problem_id == mock_problem_of(idx)
    &&& s.test_case_results@.len() == 7
    &&& forall|j: int|
        0 <= j < 7 ==> (#[trigger] s.test_case_results@[j]).judge_result_id == idx + 1
            && s.test_case_results@[j].test_case_id == j + 1
    &&& s.result matches Some(jr) && {
        &&& jr.id == idx + 1
        &&& jr.submission_id == idx + 1
        &&& match lookup_judge_update(ups, (idx + 1) as i32) {
            None => jr.verdict == Verdict::Pending && jr.score == 0 && jr.time_used == 0
                && jr.memory_used == 0,
            Some(u) => jr.verdict == u.verdict && jr.score == u.score && jr.time_used
                == u.time_used && jr.memory_used == u.memory_used,
        }
    }
}

fn tc(id: i32, judge_result_id: i32, test_case_id: i32, verdict: Verdict, score: i32, time_used: i32, memory_used: i32) -> (r: TestCaseResult)
    ensures
        r.id == id,
        r.judge_result_id == judge_result_id,
        r.test_case_id == test_case_id,
        r.verdict == verdict,
        r.score == score,
        r.time_used == time_used,
        r.memory_used == memory_used,
{
    TestCaseResult {
        id,
        judge_result_id,
        test_case_id,
        verdict,
        score,
        time_used,
        memory_used,
        created_at: "2024-01-01T00:00:01Z".to_string(),
    }
}

fn mock_submission(id: i32, language: &str, user_id: i32, problem_id: i32) -> (r: Submission)
    ensures
        r.id == id,
        r.user_id == user_id,
        r.problem_id == problem_id,
{
    Submission {
        id,
        code: String::new(),
        language: language.to_string(),
        status: "Finished".to_string(),
        user_id,
        problem_id,
        created_at: "2024-01-01T10:00:00Z".to_string(),
    }
}

fn pending_result(id: i32) -> (r: JudgeResult)
    ensures
        r.id == id,
        r.submission_id == id,
        r.verdict == Verdict::Pending,
        r.score == 0,
        r.time_used == 0,
        r.memory_used == 0,
{
    JudgeResult {
        id,
        verdict: Verdict::Pending,
        score: 0,
        time_used: 0,
        memory_used: 0,
        submission_id: id,
        created_at: "2024-01-01T10:00:01Z".to_string(),
    }
}

/// The fixed sample submissions in their freshly judged state, before any
/// update overlay: per-test verdicts are in, stored totals are still 0.
pub fn get_base_submissions() -> (r: Vec<SubmissionWithResult>)
    ensures
        r@.len() == 6,
        forall|i: int| 0 <= i < 6 ==> mock_submission_shape(#[trigger] r@[i], i, Seq::empty()),
{
    let mut out: Vec<SubmissionWithResult> = Vec::new();

    // submission 1: alice, problem 1, everything accepted
    let mut tcs1: Vec<TestCaseResult> = Vec::new();
    tcs1.push(tc(1, 1, 1, Verdict::Accepted, 10, 5, 512));
    tcs1.push(tc(2, 1, 2, Verdict::Accepted, 10, 5, 512));
    tcs1.push(tc(3, 1, 3, Verdict::Accepted, 10, 5, 512));
    tcs1.push(tc(4, 1, 4, Verdict::Accepted, 15, 8, 768));
    tcs1.push(tc(5, 1, 5, Verdict::Accepted, 15, 10, 768));
    tcs1.push(tc(6, 1, 6, Verdict::Accepted, 20, 12, 1024));
    tcs1.push(tc(7, 1, 7, Verdict::Accepted, 20, 15, 1024));
    out.push(
        SubmissionWithResult {
            submission: mock_submission(1, "cpp", 1, 1),
            result: Some(pending_result(1)),
            test_case_results: tcs1,
        },
    );

    // submission 2: alice, problem 2, last subtask exceeds the time limit
    let mut tcs2: Vec<TestCaseResult> = Vec::new();
    tcs2.push(tc(8, 2, 1, Verdict::Accepted, 5, 50, 4096));
    tcs2.push(tc(9, 2, 2, Verdict::Accepted, 5, 50, 4096));
    tcs2.push(tc(10, 2, 3, Verdict::Accepted, 7, 100, 8192));
    tcs2.push(tc(11, 2, 4, Verdict::Accepted, 7, 150, 8192));
    tcs2.push(tc(12, 2, 5, Verdict::Accepted, 6, 200, 8192));
    tcs2.push(tc(13, 2, 6, Verdict::TimeLimitExceeded, 0, 2000, 32768));
    tcs2.push(tc(14, 2, 7, Verdict::Accepted, 35, 800, 16384));
    out.push(
        SubmissionWithResult {
            submission: mock_submission(2, "cpp", 1, 2),
            result: Some(pending_result(2)),
            test_case_results: tcs2,
        },
    );

    // submission 3: bob, problem 1, last subtask exceeds the time limit
    let mut tcs3: Vec<TestCaseResult> = Vec::new();
    tcs3.push(tc(15, 3, 1, Verdict::Accepted, 10, 50, 2048));
    tcs3.push(tc(16, 3, 2, Verdict::Accepted, 10, 50, 2048));
    tcs3.push(tc(17, 3, 3, Verdict::Accepted, 10, 50, 2048));
    tcs3.push(tc(18, 3, 4, Verdict::Accepted, 15, 100, 4096));
    tcs3.push(tc(19, 3, 5, Verdict::Accepted, 15, 100, 4096));
    tcs3.push(tc(20, 3, 6, Verdict::TimeLimitExceeded, 0, 2000, 8192));
    tcs3.push(tc(21, 3, 7, Verdict::Accepted, 20, 500, 4096));
    out.push(
        SubmissionWithResult {
            submission: mock_submission(3, "python", 2, 1),
            result: Some(pending_result(3)),
            test_case_results: tcs3,
        },
    );

    // submission 4: bob, problem 2, everything accepted
    let mut tcs4: Vec<TestCaseResult> = Vec::new();
    tcs4.push(tc(22, 4, 1, Verdict::Accepted, 5, 100, 4096));
    tcs4.push(tc(23, 4, 2, Verdict::Accepted, 5, 100, 4096));
    tcs4.push(tc(24, 4, 3, Verdict::Accepted, 7, 100, 4096));
    tcs4.push(tc(25, 4, 4, Verdict::Accepted, 7, 200, 8192));
    tcs4.push(tc(26, 4, 5, Verdict::Accepted, 6, 200, 8192));
    tcs4.push(tc(27, 4, 6, Verdict::Accepted, 35, 400, 16384));
    tcs4.push(tc(28, 4, 7, Verdict::Accepted, 35, 500, 16384));
    out.push(
        SubmissionWithResult {
            submission: mock_submission(4, "cpp", 2, 2),
            result: Some(pending_result(4)),
            test_case_results: tcs4,
        },
    );

    // submission 5: charlie, problem 1, partial credit on the first subtask
    let mut tcs5: Vec<TestCaseResult> = Vec::new();
    tcs5.push(tc(29, 5, 1, Verdict::Accepted, 10, 100, 8192));
    tcs5.push(tc(30, 5, 2, Verdict::Accepted, 10, 100, 8192));
    tcs5.push(tc(31, 5, 3, Verdict::WrongAnswer, 0, 100, 8192));
    tcs5.push(tc(32, 5, 4, Verdict::Accepted, 15, 200, 16384));
    tcs5.push(tc(33, 5, 5, Verdict::WrongAnswer, 0, 200, 16384));
    tcs5.push(tc(34, 5, 6, Verdict::WrongAnswer, 0, 300, 32768));
    tcs5.push(tc(35, 5, 7, Verdict::WrongAnswer, 0, 300, 32768));
    out.push(
        SubmissionWithResult {
            submission: mock_submission(5, "java", 3, 1),
            result: Some(pending_result(5)),
            test_case_results: tcs5,
        },
    );

    // submission 6: charlie's second try on problem 1, one wrong answer left
    let mut tcs6: Vec<TestCaseResult> = Vec::new();
    tcs6.push(tc(36, 6, 1, Verdict::Accepted, 10, 80, 8192));
    tcs6.push(tc(37, 6, 2, Verdict::Accepted, 10, 80, 8192));
    tcs6.push(tc(38, 6, 3, Verdict::Accepted, 10, 80, 8192));
    tcs6.push(tc(39, 6, 4, Verdict::Accepted, 15, 150, 16384));
    tcs6.push(tc(40, 6, 5, Verdict::Accepted, 15, 150, 16384));
    tcs6.push(tc(41, 6, 6, Verdict::Accepted, 20, 250, 32768));
    tcs6.push(tc(42, 6, 7, Verdict::WrongAnswer, 0, 250, 32768));
    out.push(
        SubmissionWithResult {
            submission: mock_submission(6, "java", 3, 1),
            result: Some(pending_result(6)),
            test_case_results: tcs6,
        },
    );

    proof {
        assert(lookup_judge_update(Seq::empty(), 1) is None);
        assert(lookup_judge_update(Seq::empty(), 2) is None);
        assert(lookup_judge_update(Seq::empty(), 3) is None);
        assert(lookup_judge_update(Seq::empty(), 4) is None);
        assert(lookup_judge_update(Seq::empty(), 5) is None);
        assert(lookup_judge_update(Seq::empty(), 6) is None);
        assert forall|i: int| 0 <= i < 6 implies mock_submission_shape(
            #[trigger] out@[i],
            i,
            Seq::empty(),
        ) by {
            assert(out@[0].submission.id == 1);
            assert(out@[1].submission.id == 2);
            assert(out@[2].submission.id == 3);
            assert(out@[3].submission.id == 4);
            assert(out@[4].submission.id == 5);
            assert(out@[5].submission.id == 6);
        }
    }
    out
}

/// The most recently stored judge-result update for the given id, if any.
fn find_judge_update(state: &MockState, id: i32) -> (r: Option<JudgeResult>)
    ensures
        r == lookup_judge_update(state.judge_result_updates@, id),
{
    let ups = &state.judge_result_updates;
    let mut j: usize = ups.len();
    proof {
        assert(ups@.take(ups@.len() as int) =~= ups@);
    }
    while j > 0
        invariant
            j <= ups@.len(),
            ups@ == state.judge_result_updates@,
            lookup_judge_update(ups@, id) == lookup_judge_update(ups@.take(j as int), id),
        decreases j,
    {
        j = j - 1;
        proof {
            assert(ups@.take(j as int + 1).drop_last() =~= ups@.take(j as int));
            assert(ups@.take(j as int + 1).last() == ups@[j as int]);
        }
        if ups[j].0 == id {
            proof {
                assert(lookup_judge_update(ups@.take(j as int + 1), id) == Some(ups@[j as int].1));
                assert(lookup_judge_update(ups@, id) == Some(ups@[j as int].1));
            }
            return Some(ups[j].1.clone());
        }
    }
    proof {
        assert(ups@.take(0) =~= Seq::<(i32, JudgeResult)>::empty());
    }
    None
}

/// The sample submissions with all recorded judge-result updates applied.
pub fn get_mock_submissions(state: &MockState, _contest_id: i32) -> (r: Vec<SubmissionWithResult>)
    ensures
        r@.len() == 6,
        forall|i: int|
            0 <= i < 6 ==> mock_submission_shape(#[trigger] r@[i], i, state.judge_result_updates@),
{
    let base = get_base_submissions();
    apply_updates_to(state, base)
}

/// The given submissions with the recorded judge-result updates overlaid.
fn apply_updates_to(state: &MockState, subs: Vec<SubmissionWithResult>) -> (r: Vec<
    SubmissionWithResult,
>)
    ensures
        r@.len() == subs@.len(),
        forall|i: int|
            0 <= i < subs@.len() ==> {
                &&& (#[trigger] r@[i]).submission == subs@[i].submission
                &&& r@[i].test_case_results == subs@[i].test_case_results
                &&& (subs@[i].result is None ==> r@[i].result is None)
                &&& (subs@[i].result matches Some(jr) ==> r@[i].result == Some(
                    overlay_judge_result(jr, lookup_judge_update(state.judge_result_updates@, jr.id)),
                ))
            },
{
    let ghost orig = subs@;
    let count = subs.len();
    let mut subs = subs;
    let mut out: Vec<SubmissionWithResult> = Vec::new();
    let mut i: usize = 0;
    proof {
        assert(orig.skip(0) =~= orig);
    }
    while i < count
        invariant
            count == orig.len(),
            i <= count,
            subs@ == orig.skip(i as int),
            out@.len() == i,
            forall|t: int|
                0 <= t < i ==> {
                    &&& (#[trigger] out@[t]).submission == orig[t].submission
                    &&& out@[t].test_case_results == orig[t].test_case_results
                    &&& (orig[t].result is None ==> out@[t].result is None)
                    &&& (orig[t].result matches Some(jr) ==> out@[t].result == Some(
                        overlay_judge_result(
                            jr,
                            lookup_judge_update(state.judge_result_updates@, jr.id),
                        ),
                    ))
                },
        decreases count - i,
    {
        let ghost gi = i as int;
        let e = subs.remove(0);
        proof {
            assert(e == orig.skip(gi)[0]);
            assert(orig.skip(gi)[0] == orig[gi]);
            assert(orig.skip(gi).remove(0) =~= orig.skip(gi + 1));
        }
        let new_result: Option<JudgeResult> = match e.result {
            Some(jr) => {
                let upd = find_judge_update(state, jr.id);
                match upd {
                    Some(u) => Some(
                        JudgeResult {
                            verdict: u.verdict,
                            score: u.score,
                            time_used: u.time_used,
                            memory_used: u.memory_used,
                            ..jr
                        },
                    ),
                    None => Some(jr),
                }
            },
            None => None,
        };
        out.push(
            SubmissionWithResult {
                submission: e.submission,
                result: new_result,
                test_case_results: e.test_case_results,
            },
        );
        i = i + 1;
    }
    out
}

/// The sample submission with the given id, its source code filled in; an
/// empty list when no sample submission has that id.
pub fn get_mock_submission_by_id(submission_id: i32) -> (r: Vec<Submission>)
    ensures
        1 <= submission_id <= 6 ==> r@.len() == 1 && r@[0].id == submission_id,
        !(1 <= submission_id <= 6) ==> r@.len() == 0,
{
    let base = get_base_submissions();
    let mut out: Vec<Submission> = Vec::new();
    let mut i: usize = 0;
    while i < base.len()
        invariant
            base@.len() == 6,
            i <= 6,
            forall|t: int| 0 <= t < 6 ==> mock_submission_shape(#[trigger] base@[t], t, Seq::empty()),
            1 <= submission_id <= i ==> out@.len() == 1 && out@[0].id == submission_id,
            !(1 <= submission_id <= i) ==> out@.len() == 0,
        decreases base@.len() - i,
    {
        proof {
            assert(mock_submission_shape(base@[i as int], i as int, Seq::empty()));
        }
        if base[i].submission.id == submission_id {
            let s = base[i].submission.clone();
            out.push(
                Submission {
                    code: "a, b = read_two_numbers()\nwrite_line(a + b)\n".to_string(),
                    ..s
                },
            );
        }
        i = i + 1;
    }
    out
}

/// The judge result of the sample submission with the given id, with any
/// recorded update applied; an empty list when there is none.
pub fn get_mock_judge_result(state: &MockState, submission_id: i32) -> (r: Vec<JudgeResult>)
    ensures
        1 <= submission_id <= 6 ==> r@.len() == 1 && r@[0].id == submission_id
            && r@[0].submission_id == submission_id,
        !(1 <= submission_id <= 6) ==> r@.len() == 0,
{
    let subs = get_mock_submissions(state, 0);
    let mut out: Vec<JudgeResult> = Vec::new();
    let mut i: usize = 0;
    while i < subs.len()
        invariant
            subs@.len() == 6,
            i <= 6,
            forall|t: int|
                0 <= t < 6 ==> mock_submission_shape(
                    #[trigger] subs@[t],
                    t,
                    state.judge_result_updates@,
                ),
            1 <= submission_id <= i ==> out@.len() == 1 && out@[0].id == submission_id
                && out@[0].submission_id == submission_id,
            !(1 <= submission_id <= i) ==> out@.len() == 0,
        decreases subs@.len() - i,
    {
        proof {
            assert(mock_submission_shape(subs@[i as int], i as int, state.judge_result_updates@));
        }
        if subs[i].submission.id == submission_id {
            match &subs[i].result {
                Some(jr) => {
                    out.push(jr.clone());
                },
                None => {},
            }
        }
        i = i + 1;
    }
    out
}

/// The test-case results of the sample judging run with the given id; an
/// empty list when there is none.
pub fn get_mock_test_case_results(judge_result_id: i32) -> (r: Vec<TestCaseResult>)
    ensures
        1 <= judge_result_id <= 6 ==> r@.len() == 7 && forall|j: int|
            0 <= j < 7 ==> (#[trigger] r@[j]).judge_result_id == judge_result_id
                && r@[j].test_case_id == j + 1,
        !(1 <= judge_result_id <= 6) ==> r@.len() == 0,
{
    let base = get_base_submissions();
    let mut base = base;
    let mut i: usize = 0;
    let count = base.len();
    while i < count
        invariant
            count == 6,
            base@.len() == 6 - i,
            i <= 6,
            forall|t: int|
                0 <= t < base@.len() ==> mock_submission_shape(
                    #[trigger] base@[t],
                    t + i,
                    Seq::empty(),
                ),
            !(1 <= judge_result_id <= i),
        decreases count - i,
    {
        proof {
            assert(mock_submission_shape(base@[0], i as int, Seq::empty()));
        }
        let ghost prev = base@;
        let e = base.remove(0);
        proof {
            assert forall|t: int| 0 <= t < base@.len() implies mock_submission_shape(
                #[trigger] base@[t],
                t + (i + 1),
                Seq::empty(),
            ) by {
                assert(base@[t] == prev[t + 1]);
                assert(mock_submission_shape(prev[t + 1], t + 1 + i, Seq::empty()));
            }
        }
        match &e.result {
            Some(jr) => {
                if jr.id == judge_result_id {
                    return e.test_case_results;
                }
            },
            None => {},
        }
        i = i + 1;
    }
    Vec::new()
}

fn ids2(a: i32, b: i32) -> (r: Vec<i32>)
    ensures
        r@ =~= seq![a, b],
{
    let mut v: Vec<i32> = Vec::new();
    v.push(a);
    v.push(b);
    v
}

fn ids3(a: i32, b: i32, c: i32) -> (r: Vec<i32>)
    ensures
        r@ =~= seq![a, b, c],
{
    let mut v: Vec<i32> = Vec::new();
    v.push(a);
    v.push(b);
    v.push(c);
    v
}

fn ids4(a: i32, b: i32, c: i32, d: i32) -> (r: Vec<i32>)
    ensures
        r@ =~= seq![a, b, c, d],
{
    let mut v: Vec<i32> = Vec::new();
    v.push(a);
    v.push(b);
    v.push(c);
    v.push(d);
    v
}

/// Shape of the sample scoring configuration for the given problem id.
pub open spec fn mock_config_shape(problem_id: i32, r: ProblemIOIConfig) -> bool {
    &&& r.problem_id == problem_id
    &&& (problem_id == 1 ==> {
        &&& r.subtask_enabled
        &&& r.final_score_method == FinalScoreMethod::BestSubmission
        &&& r.subtasks@.len() == 3
        &&& r.subtasks@[0].max_score == 30 && r.subtasks@[0].scoring_method
            == SubtaskScoringMethod::Sum && r.subtasks@[0].test_case_ids@ == seq![1i32, 2i32, 3i32]
        &&& r.subtasks@[1].max_score == 30 && r.subtasks@[1].scoring_method
            == SubtaskScoringMethod::GroupMin && r.subtasks@[1].test_case_ids@ == seq![4i32, 5i32]
        &&& r.subtasks@[2].max_score == 40 && r.subtasks@[2].scoring_method
            == SubtaskScoringMethod::GroupMin && r.subtasks@[2].test_case_ids@ == seq![6i32, 7i32]
    })
    &&& (problem_id == 2 ==> {
        &&& r.subtask_enabled
        &&& r.final_score_method == FinalScoreMethod::BestSubmission
        &&& r.subtasks@.len() == 3
        &&& r.subtasks@[0].max_score == 10 && r.subtasks@[0].scoring_method
            == SubtaskScoringMethod::GroupMin && r.subtasks@[0].test_case_ids@ == seq![1i32, 2i32]
        &&& r.subtasks@[1].max_score == 20 && r.subtasks@[1].scoring_method
            == SubtaskScoringMethod::GroupMin && r.subtasks@[1].test_case_ids@ == seq![
            3i32,
            4i32,
            5i32,
        ]
        &&& r.subtasks@[2].max_score == 70 && r.subtasks@[2].scoring_method
            == SubtaskScoringMethod::GroupMin && r.subtasks@[2].test_case_ids@ == seq![6i32, 7i32]
    })
    &&& (problem_id == 3 ==> {
        &&& r.subtask_enabled
        &&& r.final_score_method == FinalScoreMethod::BestSubtaskSum
        &&& r.subtasks@.len() == 3
        &&& r.subtasks@[0].max_score == 20 && r.subtasks@[0].scoring_method
            == SubtaskScoringMethod::GroupMin && r.subtasks@[0].test_case_ids@ == seq![
            1i32,
            2i32,
            3i32,
        ]
        &&& r.subtasks@[1].max_score == 30 && r.subtasks@[1].scoring_method
            == SubtaskScoringMethod::GroupMin && r.subtasks@[1].test_case_ids@ == seq![4i32, 5i32]
        &&& r.subtasks@[2].max_score == 50 && r.subtasks@[2].scoring_method
            == SubtaskScoringMethod::GroupMin && r.subtasks@[2].test_case_ids@ == seq![6i32, 7i32]
    })
    &&& (problem_id == 4 ==> {
        &&& r.subtask_enabled
        &&& r.final_score_method == FinalScoreMethod::BestSubmission
        &&& r.subtasks@.len() == 2
        &&& r.subtasks@[0].max_score == 40 && r.subtasks@[0].scoring_method
            == SubtaskScoringMethod::GroupMul && r.subtasks@[0].test_case_ids@ == seq![
            1i32,
            2i32,
            3i32,
            4i32,
        ]
        &&& r.subtasks@[1].max_score == 60 && r.subtasks@[1].scoring_method
            == SubtaskScoringMethod::GroupMul && r.subtasks@[1].test_case_ids@ == seq![
            5i32,
            6i32,
            7i32,
        ]
    })
    &&& (!(1 <= problem_id <= 4) ==> {
        &&& !r.subtask_enabled
        &&& r.final_score_method == FinalScoreMethod::BestSubmission
        &&& r.subtasks@.len() == 0
    })
}

/// The sample scoring configuration of the given problem: subtask layouts
/// for the first four problem ids, the plain default otherwise.
pub fn get_mock_problem_config(problem_id: i32) -> (r: ProblemIOIConfig)
    ensures
        mock_config_shape(problem_id, r),
{
    if problem_id == 1 {
        let mut subtasks: Vec<SubtaskConfig> = Vec::new();
        subtasks.push(
            SubtaskConfig {
                id: 1,
                name: "Subtask 1 - Small (N <= 100)".to_string(),
                max_score: 30,
                scoring_method: SubtaskScoringMethod::Sum,
                test_case_ids: ids3(1, 2, 3),
            },
        );
        subtasks.push(
            SubtaskConfig {
                id: 2,
                name: "Subtask 2 - Medium (N <= 10000)".to_string(),
                max_score: 30,
                scoring_method: SubtaskScoringMethod::GroupMin,
                test_case_ids: ids2(4, 5),
            },
        );
        subtasks.push(
            SubtaskConfig {
                id: 3,
                name: "Subtask 3 - Large (N <= 10^6)".to_string(),
                max_score: 40,
                scoring_method: SubtaskScoringMethod::GroupMin,
                test_case_ids: ids2(6, 7),
            },
        );
        ProblemIOIConfig {
            problem_id: 1,
            subtask_enabled: true,
            final_score_method: FinalScoreMethod::BestSubmission,
            subtasks,
        }
    } else if problem_id == 2 {
        let mut subtasks: Vec<SubtaskConfig> = Vec::new();
        subtasks.push(
            SubtaskConfig {
                id: 1,
                name: "Subtask 1 - Examples".to_string(),
                max_score: 10,
                scoring_method: SubtaskScoringMethod::GroupMin,
                test_case_ids: ids2(1, 2),
            },
        );
        subtasks.push(
            SubtaskConfig {
                id: 2,
                name: "Subtask 2 - Small".to_string(),
                max_score: 20,
                scoring_method: SubtaskScoringMethod::GroupMin,
                test_case_ids: ids3(3, 4, 5),
            },
        );
        subtasks.push(
            SubtaskConfig {
                id: 3,
                name: "Subtask 3 - Full".to_string(),
                max_score: 70,
                scoring_method: SubtaskScoringMethod::GroupMin,
                test_case_ids: ids2(6, 7),
            },
        );
        ProblemIOIConfig {
            problem_id: 2,
            subtask_enabled: true,
            final_score_method: FinalScoreMethod::BestSubmission,
            subtasks,
        }
    } else if problem_id == 3 {
        let mut subtasks: Vec<SubtaskConfig> = Vec::new();
        subtasks.push(
            SubtaskConfig {
                id: 1,
                name: "Subtask 1".to_string(),
                max_score: 20,
                scoring_method: SubtaskScoringMethod::GroupMin,
                test_case_ids: ids3(1, 2, 3),
            },
        );
        subtasks.push(
            SubtaskConfig {
                id: 2,
                name: "Subtask 2".to_string(),
                max_score: 30,
                scoring_method: SubtaskScoringMethod::GroupMin,
                test_case_ids: ids2(4, 5),
            },
        );
        subtasks.push(
            SubtaskConfig {
                id: 3,
                name: "Subtask 3".to_string(),
                max_score: 50,
                scoring_method: SubtaskScoringMethod::GroupMin,
                test_case_ids: ids2(6, 7),
            },
        );
        ProblemIOIConfig {
            problem_id: 3,
            subtask_enabled: true,
            final_score_method: FinalScoreMethod::BestSubtaskSum,
            subtasks,
        }
    } else if problem_id == 4 {
        let mut subtasks: Vec<SubtaskConfig> = Vec::new();
        subtasks.push(
            SubtaskConfig {
                id: 1,
                name: "Subtask 1 - Basic".to_string(),
                max_score: 40,
                scoring_method: SubtaskScoringMethod::GroupMul,
                test_case_ids: ids4(1, 2, 3, 4),
            },
        );
        subtasks.push(
            SubtaskConfig {
                id: 2,
                name: "Subtask 2 - Advanced".to_string(),
                max_score: 60,
                scoring_method: SubtaskScoringMethod::GroupMul,
                test_case_ids: ids3(5, 6, 7),
            },
        );
        ProblemIOIConfig {
            problem_id: 4,
            subtask_enabled: true,
            final_score_method: FinalScoreMethod::BestSubmission,
            subtasks,
        }
    } else {
        ProblemIOIConfig {
            problem_id,
            subtask_enabled: false,
            final_score_method: FinalScoreMethod::BestSubmission,
            subtasks: Vec::new(),
        }
    }
}

} // verus!
