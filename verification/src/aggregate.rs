//! Problem score aggregation: how a user's submission history for one
//! problem combines into a final problem score, under either final-score
//! policy.

use vstd::prelude::*;
use crate::models::{FinalScoreMethod, ProblemIOIConfig, SubmissionWithResult, SubtaskBestScore,
    SubtaskConfig};
use crate::scoring::{calculate_subtask_score, clamp_i32, filter_matching, matching_results, max_i,
    subtask_score};

verus! {

/// Whether a submission record belongs to the given user and problem.
pub open spec fn is_for_user_problem(s: SubmissionWithResult, user_id: i32, problem_id: i32) -> bool {
    s.submission.user_id == user_id && s.submission.problem_id == problem_id
}

/// The submissions of one user for one problem, in input order.
pub open spec fn subs_for(s: Seq<SubmissionWithResult>, user_id: i32, problem_id: i32) -> Seq<
    SubmissionWithResult,
>
    decreases s.len(),
{
    if s.len() == 0 {
        Seq::empty()
    } else if is_for_user_problem(s.last(), user_id, problem_id) {
        subs_for(s.drop_last(), user_id, problem_id).push(s.last())
    } else {
        subs_for(s.drop_last(), user_id, problem_id)
    }
}

/// The stored judge-result scores of the submissions that have one.
pub open spec fn stored_scores(s: Seq<SubmissionWithResult>) -> Seq<int>
    decreases s.len(),
{
    if s.len() == 0 {
        Seq::empty()
    } else {
        match s.last().result {
            Some(jr) => stored_scores(s.drop_last()).push(jr.score as int),
            None => stored_scores(s.drop_last()),
        }
    }
}

/// Largest element of an integer sequence; 0 when it is empty.
pub open spec fn seq_max_int(s: Seq<int>) -> int
    decreases s.len(),
{
    if s.len() == 0 {
        0
    } else if s.len() == 1 {
        s[0]
    } else {
        max_i(seq_max_int(s.drop_last()), s.last())
    }
}

/// The best stored total score among the submissions; 0 when none of them
/// has a judge result.
pub open spec fn best_stored(s: Seq<SubmissionWithResult>) -> int {
    if stored_scores(s).len() == 0 {
        0
    } else {
        seq_max_int(stored_scores(s))
    }
}

/// The score one submission earns on one subtask, re-derived from its own
/// test-case results.
pub open spec fn submission_subtask_score(sub: SubmissionWithResult, cfg: SubtaskConfig) -> int {
    subtask_score(matching_results(sub.test_case_results@, cfg.test_case_ids@), cfg)
}

/// The best score for one subtask across the submissions; 0 when there are
/// none.
pub open spec fn best_subtask(s: Seq<SubmissionWithResult>, cfg: SubtaskConfig) -> int
    decreases s.len(),
{
    if s.len() == 0 {
        0
    } else if s.len() == 1 {
        submission_subtask_score(s[0], cfg)
    } else {
        max_i(best_subtask(s.drop_last(), cfg), submission_subtask_score(s.last(), cfg))
    }
}

/// Sum over the subtasks of the best score each reaches across the
/// submissions.
pub open spec fn sum_best_subtasks(s: Seq<SubmissionWithResult>, cfgs: Seq<SubtaskConfig>) -> int
    decreases cfgs.len(),
{
    if cfgs.len() == 0 {
        0
    } else {
        sum_best_subtasks(s, cfgs.drop_last()) + best_subtask(s, cfgs.last())
    }
}

/// Whether the configuration calls for the per-subtask best-across-
/// submissions breakdown.
pub open spec fn uses_subtask_breakdown(config: ProblemIOIConfig) -> bool {
    config.final_score_method == FinalScoreMethod::BestSubtaskSum && config.subtask_enabled
        && config.subtasks@.len() > 0
}

/// The final problem score of a set of submissions of one user for one
/// problem: 0 when there are none; the sum of per-subtask maxima under
/// `BestSubtaskSum` with subtasks configured; the best stored submission
/// score otherwise.
pub open spec fn final_score_of(fs: Seq<SubmissionWithResult>, config: ProblemIOIConfig) -> int {
    if fs.len() == 0 {
        0
    } else if uses_subtask_breakdown(config) {
        clamp_i32(sum_best_subtasks(fs, config.subtasks@))
    } else {
        best_stored(fs)
    }
}

/// Whether `bs` is the per-subtask best-score breakdown of `fs` under the
/// subtask configurations `cfgs`.
pub open spec fn is_best_breakdown(bs: Seq<SubtaskBestScore>, fs: Seq<SubmissionWithResult>, cfgs: Seq<SubtaskConfig>) -> bool {
    &&& bs.len() == cfgs.len()
    &&& forall|k: int|
        0 <= k < cfgs.len() ==> {
            &&& (#[trigger] bs[k]).subtask_id == cfgs[k].id
            &&& bs[k].subtask_name == cfgs[k].name
            &&& bs[k].max_score == cfgs[k].max_score
            &&& bs[k].best_score as int == best_subtask(fs, cfgs[k])
        }
}

/// Sum of the best scores recorded in a breakdown.
pub open spec fn sum_breakdown(bs: Seq<SubtaskBestScore>) -> int
    decreases bs.len(),
{
    if bs.len() == 0 {
        0
    } else {
        sum_breakdown(bs.drop_last()) + bs.last().best_score
    }
}

proof fn lemma_sum_breakdown_matches(bs: Seq<SubtaskBestScore>, fs: Seq<SubmissionWithResult>, cfgs: Seq<SubtaskConfig>)
    requires
        is_best_breakdown(bs, fs, cfgs),
    ensures
        sum_breakdown(bs) == sum_best_subtasks(fs, cfgs),
    decreases bs.len(),
{
    if bs.len() > 0 {
        assert(bs[bs.len() - 1].best_score as int == best_subtask(fs, cfgs[cfgs.len() - 1]));
        assert(is_best_breakdown(bs.drop_last(), fs, cfgs.drop_last()));
        lemma_sum_breakdown_matches(bs.drop_last(), fs, cfgs.drop_last());
    }
}

/// How many submissions of the given user for the given problem the list
/// holds.
pub fn count_submissions_for(submissions: &Vec<SubmissionWithResult>, user_id: i32, problem_id: i32) -> (c: usize)
    ensures
        c == subs_for(submissions@, user_id, problem_id).len(),
{
    let mut c: usize = 0;
    let mut j: usize = 0;
    proof {
        assert(submissions@.take(0) =~= Seq::<SubmissionWithResult>::empty());
    }
    while j < submissions.len()
        invariant
            j <= submissions@.len(),
            c == subs_for(submissions@.take(j as int), user_id, problem_id).len(),
            c <= j,
        decreases submissions@.len() - j,
    {
        let ghost pre = submissions@.take(j as int);
        let s = &submissions[j];
        if s.submission.user_id == user_id && s.submission.problem_id == problem_id {
            c = c + 1;
        }
        j = j + 1;
        proof {
            assert(submissions@.take(j as int).drop_last() =~= pre);
            assert(submissions@.take(j as int).last() == submissions@[j - 1]);
        }
    }
    proof {
        assert(submissions@.take(submissions@.len() as int) =~= submissions@);
    }
    c
}

/// The final score of one user for one problem, with the per-subtask best
/// breakdown where the configuration calls for it.
///
/// Only the submissions of the given user for the given problem are
/// considered; the rest of the list is ignored.
pub fn calculate_problem_final_score(
    submissions: &Vec<SubmissionWithResult>,
    user_id: i32,
    problem_id: i32,
    config: &ProblemIOIConfig,
) -> (r: (i32, Option<Vec<SubtaskBestScore>>))
    ensures
        r.0 as int == final_score_of(subs_for(submissions@, user_id, problem_id), *config),
        (subs_for(submissions@, user_id, problem_id).len() == 0 || !uses_subtask_breakdown(
            *config,
        )) ==> r.1 is None,
        subs_for(submissions@, user_id, problem_id).len() > 0 && uses_subtask_breakdown(*config)
            ==> (r.1 matches Some(bs) && is_best_breakdown(
            bs@,
            subs_for(submissions@, user_id, problem_id),
            config.subtasks@,
        )),
{
    let ghost fs = subs_for(submissions@, user_id, problem_id);
    let use_breakdown = match config.final_score_method {
        FinalScoreMethod::BestSubmission => false,
        FinalScoreMethod::BestSubtaskSum => config.subtask_enabled && config.subtasks.len() > 0,
    };
    proof {
        assert(use_breakdown == uses_subtask_breakdown(*config));
    }

    if !use_breakdown {
        // best stored score across the user's submissions
        let mut best: Option<i32> = None;
        let mut j: usize = 0;
        proof {
            assert(submissions@.take(0) =~= Seq::<SubmissionWithResult>::empty());
        }
        while j < submissions.len()
            invariant
                j <= submissions@.len(),
                best is None <==> stored_scores(
                    subs_for(submissions@.take(j as int), user_id, problem_id),
                ).len() == 0,
                best matches Some(b) ==> b as int == seq_max_int(
                    stored_scores(subs_for(submissions@.take(j as int), user_id, problem_id)),
                ),
            decreases submissions@.len() - j,
        {
            let ghost pre = subs_for(submissions@.take(j as int), user_id, problem_id);
            let s = &submissions[j];
            proof {
                assert(submissions@.take(j as int + 1).drop_last() =~= submissions@.take(
                    j as int,
                ));
                assert(submissions@.take(j as int + 1).last() == submissions@[j as int]);
            }
            if s.submission.user_id == user_id && s.submission.problem_id == problem_id {
                proof {
                    assert(subs_for(submissions@.take(j as int + 1), user_id, problem_id)
                        == pre.push(submissions@[j as int]));
                    assert(pre.push(submissions@[j as int]).drop_last() =~= pre);
                }
                match &s.result {
                    Some(jr) => {
                        let ghost old_scores = stored_scores(pre);
                        proof {
                            assert(stored_scores(pre.push(submissions@[j as int]))
                                == old_scores.push(jr.score as int));
                            assert(old_scores.push(jr.score as int).drop_last() =~= old_scores);
                        }
                        best = match best {
                            Some(b) => if jr.score > b {
                                Some(jr.score)
                            } else {
                                Some(b)
                            },
                            None => Some(jr.score),
                        };
                    },
                    None => {
                        proof {
                            assert(stored_scores(pre.push(submissions@[j as int]))
                                == stored_scores(pre));
                        }
                    },
                }
            }
            j = j + 1;
        }
        proof {
            assert(submissions@.take(submissions@.len() as int) =~= submissions@);
        }
        let score = match best {
            Some(b) => b,
            None => 0,
        };
        return (score, None);
    }

    // per-subtask best across submissions, then the sum of the maxima
    let mut found = false;
    let mut j: usize = 0;
    proof {
        assert(submissions@.take(0) =~= Seq::<SubmissionWithResult>::empty());
    }
    while j < submissions.len()
        invariant
            j <= submissions@.len(),
            found <==> subs_for(submissions@.take(j as int), user_id, problem_id).len() > 0,
        decreases submissions@.len() - j,
    {
        let s = &submissions[j];
        proof {
            assert(submissions@.take(j as int + 1).drop_last() =~= submissions@.take(j as int));
            assert(submissions@.take(j as int + 1).last() == submissions@[j as int]);
        }
        if s.submission.user_id == user_id && s.submission.problem_id == problem_id {
            found = true;
        }
        j = j + 1;
    }
    proof {
        assert(submissions@.take(submissions@.len() as int) =~= submissions@);
    }
    if !found {
        return (0, None);
    }

    let mut breakdown: Vec<SubtaskBestScore> = Vec::new();
    let mut k: usize = 0;
    while k < config.subtasks.len()
        invariant
            k <= config.subtasks@.len(),
            breakdown@.len() == k,
            fs == subs_for(submissions@, user_id, problem_id),
            fs.len() > 0,
            forall|t: int|
                0 <= t < k ==> {
                    &&& (#[trigger] breakdown@[t]).subtask_id == config.subtasks@[t].id
                    &&& breakdown@[t].subtask_name == config.subtasks@[t].name
                    &&& breakdown@[t].max_score == config.subtasks@[t].max_score
                    &&& breakdown@[t].best_score as int == best_subtask(fs, config.subtasks@[t])
                },
        decreases config.subtasks@.len() - k,
    {
        let subtask = &config.subtasks[k];
        let mut best: Option<i32> = None;
        let mut j2: usize = 0;
        proof {
            assert(submissions@.take(0) =~= Seq::<SubmissionWithResult>::empty());
        }
        while j2 < submissions.len()
            invariant
                j2 <= submissions@.len(),
                *subtask == config.subtasks@[k as int],
                0 <= k < config.subtasks@.len(),
                best is None <==> subs_for(submissions@.take(j2 as int), user_id, problem_id).len()
                    == 0,
                best matches Some(b) ==> b as int == best_subtask(
                    subs_for(submissions@.take(j2 as int), user_id, problem_id),
                    config.subtasks@[k as int],
                ),
            decreases submissions@.len() - j2,
        {
            let ghost pre = subs_for(submissions@.take(j2 as int), user_id, problem_id);
            let s = &submissions[j2];
            proof {
                assert(submissions@.take(j2 as int + 1).drop_last() =~= submissions@.take(
                    j2 as int,
                ));
                assert(submissions@.take(j2 as int + 1).last() == submissions@[j2 as int]);
            }
            if s.submission.user_id == user_id && s.submission.problem_id == problem_id {
                let filtered = filter_matching(&s.test_case_results, &subtask.test_case_ids);
                let (score, _, _, _) = calculate_subtask_score(&filtered, subtask);
                proof {
                    assert(subs_for(submissions@.take(j2 as int + 1), user_id, problem_id)
                        == pre.push(submissions@[j2 as int]));
                    assert(pre.push(submissions@[j2 as int]).drop_last() =~= pre);
                    assert(score as int == submission_subtask_score(
                        submissions@[j2 as int],
                        config.subtasks@[k as int],
                    ));
                }
                best = match best {
                    Some(b) => if score > b {
                        Some(score)
                    } else {
                        Some(b)
                    },
                    None => Some(score),
                };
            }
            j2 = j2 + 1;
        }
        proof {
            assert(submissions@.take(submissions@.len() as int) =~= submissions@);
        }
        let best_score = match best {
            Some(b) => b,
            None => 0,
        };
        breakdown.push(
            SubtaskBestScore {
                subtask_id: subtask.id,
                subtask_name: subtask.name.clone(),
                best_score,
                max_score: subtask.max_score,
            },
        );
        k = k + 1;
    }

    // total: the sum of the per-subtask maxima, saturated into i32
    let mut acc: i128 = 0;
    let mut t: usize = 0;
    proof {
        assert(breakdown@.take(0) =~= Seq::<SubtaskBestScore>::empty());
    }
    while t < breakdown.len()
        invariant
            t <= breakdown@.len(),
            acc as int == sum_breakdown(breakdown@.take(t as int)),
            -0x80000000 * (t as int) <= acc as int <= 0x80000000 * (t as int),
        decreases breakdown@.len() - t,
    {
        let ghost pre = breakdown@.take(t as int);
        acc = acc + breakdown[t].best_score as i128;
        t = t + 1;
        proof {
            assert(breakdown@.take(t as int).drop_last() =~= pre);
            assert(breakdown@.take(t as int).last() == breakdown@[t - 1]);
        }
    }
    proof {
        assert(breakdown@.take(breakdown@.len() as int) =~= breakdown@);
        lemma_sum_breakdown_matches(breakdown@, fs, config.subtasks@);
    }
    let total: i32 = if acc > i32::MAX as i128 {
        i32::MAX
    } else if acc < i32::MIN as i128 {
        i32::MIN
    } else {
        acc as i32
    };
    (total, Some(breakdown))
}

} // verus!
