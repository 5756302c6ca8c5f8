//! Leaderboard construction: per-user totals over all problems, a stable
//! descending sort, dense competition ranks, and pagination.

use vstd::prelude::*;
use crate::aggregate::{calculate_problem_final_score, count_submissions_for, final_score_of,
    is_best_breakdown, subs_for, uses_subtask_breakdown};
use crate::models::{LeaderboardEntry, Problem, ProblemIOIConfig, ProblemScore,
    SubmissionWithResult, SubtaskConfig, User};
use crate::scoring::clamp_i32;

verus! {

/// Sum of the configured subtasks' maximum scores.
pub open spec fn sum_max_scores(cfgs: Seq<SubtaskConfig>) -> int
    decreases cfgs.len(),
{
    if cfgs.len() == 0 {
        0
    } else {
        sum_max_scores(cfgs.drop_last()) + cfgs.last().max_score
    }
}

/// The maximum reachable score of a problem: the sum of its subtask maxima
/// when subtask mode is on, a flat 100 otherwise.
pub open spec fn problem_max_score_of(config: ProblemIOIConfig) -> int {
    if config.subtask_enabled {
        clamp_i32(sum_max_scores(config.subtasks@))
    } else {
        100
    }
}

/// Whether `ps` is the problem-score row of the given user for the given
/// problem, derived from the submission list under the configuration.
pub open spec fn ps_matches(
    ps: ProblemScore,
    user_id: i32,
    problem: Problem,
    cfg: ProblemIOIConfig,
    subs: Seq<SubmissionWithResult>,
) -> bool {
    let fs = subs_for(subs, user_id, problem.id);
    &&& ps.problem_id == problem.id
    &&& ps.problem_title == problem.title
    &&& ps.score as int == final_score_of(fs, cfg)
    &&& ps.max_score as int == problem_max_score_of(cfg)
    &&& ps.submission_count as int == clamp_i32(fs.len() as int)
    &&& (fs.len() == 0 || !uses_subtask_breakdown(cfg)) ==> ps.subtask_scores is None
    &&& (fs.len() > 0 && uses_subtask_breakdown(cfg)) ==> (ps.subtask_scores matches Some(bs)
        && is_best_breakdown(bs@, fs, cfg.subtasks@))
}

/// Sum over the problems of the user's final problem score.
pub open spec fn sum_final_scores(
    user_id: i32,
    problems: Seq<Problem>,
    cfgs: Seq<ProblemIOIConfig>,
    subs: Seq<SubmissionWithResult>,
) -> int
    decreases problems.len(),
{
    if problems.len() == 0 {
        0
    } else {
        sum_final_scores(user_id, problems.drop_last(), cfgs.drop_last(), subs) + final_score_of(
            subs_for(subs, user_id, problems.last().id),
            cfgs.last(),
        )
    }
}

/// Whether `e` is the (unranked) leaderboard row of the given user.
pub open spec fn entry_matches(
    e: LeaderboardEntry,
    user: User,
    problems: Seq<Problem>,
    cfgs: Seq<ProblemIOIConfig>,
    subs: Seq<SubmissionWithResult>,
) -> bool {
    &&& e.user == user
    &&& e.problem_scores@.len() == problems.len()
    &&& forall|j: int|
        0 <= j < problems.len() ==> ps_matches(
            #[trigger] e.problem_scores@[j],
            user.id,
            problems[j],
            cfgs[j],
            subs,
        )
    &&& e.total_score as int == clamp_i32(sum_final_scores(user.id, problems, cfgs, subs))
}

/// The totals of the rows, as mathematical integers.
pub open spec fn totals_of(s: Seq<LeaderboardEntry>) -> Seq<int> {
    Seq::new(s.len(), |i: int| s[i].total_score as int)
}

/// How many elements of `ts` exceed `x`.
pub open spec fn count_gt(ts: Seq<int>, x: int) -> int
    decreases ts.len(),
{
    if ts.len() == 0 {
        0
    } else {
        count_gt(ts.drop_last(), x) + if ts.last() > x {
            1int
        } else {
            0int
        }
    }
}

/// Whether `perm` maps ranked rows back to users so that every row is that
/// user's row, and rows with equal totals keep the users' input order.
pub open spec fn is_stable_leaderboard_perm(
    perm: Seq<int>,
    out: Seq<LeaderboardEntry>,
    users: Seq<User>,
    problems: Seq<Problem>,
    cfgs: Seq<ProblemIOIConfig>,
    subs: Seq<SubmissionWithResult>,
) -> bool {
    &&& perm.len() == out.len()
    &&& out.len() == users.len()
    &&& forall|i: int| 0 <= i < perm.len() ==> 0 <= #[trigger] perm[i] < users.len()
    &&& forall|i: int, j: int| 0 <= i < j < perm.len() ==> perm[i] != perm[j]
    &&& forall|i: int|
        0 <= i < out.len() ==> entry_matches(#[trigger] out[i], users[perm[i]], problems, cfgs, subs)
    &&& forall|i: int, j: int|
        0 <= i < j < out.len() && out[i].total_score == out[j].total_score ==> perm[i] < perm[j]
}

/// The maximum reachable score of a problem under its configuration.
pub fn problem_max_score(config: &ProblemIOIConfig) -> (r: i32)
    ensures
        r as int == problem_max_score_of(*config),
{
    if !config.subtask_enabled {
        return 100;
    }
    let mut acc: i128 = 0;
    let mut i: usize = 0;
    proof {
        assert(config.subtasks@.take(0) =~= Seq::<SubtaskConfig>::empty());
    }
    while i < config.subtasks.len()
        invariant
            i <= config.subtasks@.len(),
            acc as int == sum_max_scores(config.subtasks@.take(i as int)),
            -0x80000000 * (i as int) <= acc as int <= 0x80000000 * (i as int),
        decreases config.subtasks@.len() - i,
    {
        let ghost pre = config.subtasks@.take(i as int);
        acc = acc + config.subtasks[i].max_score as i128;
        i = i + 1;
        proof {
            assert(config.subtasks@.take(i as int).drop_last() =~= pre);
            assert(config.subtasks@.take(i as int).last() == config.subtasks@[i - 1]);
        }
    }
    proof {
        assert(config.subtasks@.take(config.subtasks@.len() as int) =~= config.subtasks@);
    }
    if acc > i32::MAX as i128 {
        i32::MAX
    } else if acc < i32::MIN as i128 {
        i32::MIN
    } else {
        acc as i32
    }
}

/// The full ranked leaderboard: one row per user, sorted by total score
/// descending with a stable order among ties, carrying dense competition
/// ranks (tied totals share a rank; the rank is one more than the number
/// of strictly higher totals).
///
/// `configs` holds the scoring configuration of each problem, aligned with
/// `problems` by index.
#[verifier::rlimit(60)]
pub fn calculate_leaderboard(
    users: Vec<User>,
    problems: Vec<Problem>,
    all_submissions: Vec<SubmissionWithResult>,
    configs: &Vec<ProblemIOIConfig>,
) -> (out: Vec<LeaderboardEntry>)
    requires
        configs@.len() == problems@.len(),
    ensures
        out@.len() == users@.len(),
        forall|i: int, j: int|
            0 <= i < j < out@.len() ==> out@[i].total_score >= out@[j].total_score,
        forall|i: int|
            0 <= i < out@.len() ==> (#[trigger] out@[i]).rank as int == clamp_i32(
                1 + count_gt(totals_of(out@), out@[i].total_score as int),
            ),
        exists|perm: Seq<int>|
            is_stable_leaderboard_perm(perm, out@, users@, problems@, configs@, all_submissions@),
{
    // one unranked row per user, in input order
    let mut entries: Vec<LeaderboardEntry> = Vec::new();
    let mut u: usize = 0;
    while u < users.len()
        invariant
            u <= users@.len(),
            entries@.len() == u,
            configs@.len() == problems@.len(),
            forall|t: int|
                0 <= t < u ==> entry_matches(
                    #[trigger] entries@[t],
                    users@[t],
                    problems@,
                    configs@,
                    all_submissions@,
                ),
        decreases users@.len() - u,
    {
        let user = users[u].clone();
        let ghost uid = user.id;
        let mut problem_scores: Vec<ProblemScore> = Vec::new();
        let mut acc: i128 = 0;
        let mut p: usize = 0;
        proof {
            assert(problems@.take(0) =~= Seq::<Problem>::empty());
        }
        while p < problems.len()
            invariant
                p <= problems@.len(),
                configs@.len() == problems@.len(),
                problem_scores@.len() == p,
                uid == user.id,
                acc as int == sum_final_scores(
                    uid,
                    problems@.take(p as int),
                    configs@.take(p as int),
                    all_submissions@,
                ),
                -0x80000000 * (p as int) <= acc as int <= 0x80000000 * (p as int),
                forall|j: int|
                    0 <= j < p ==> ps_matches(
                        #[trigger] problem_scores@[j],
                        uid,
                        problems@[j],
                        configs@[j],
                        all_submissions@,
                    ),
            decreases problems@.len() - p,
        {
            let ghost pre_p = problems@.take(p as int);
            let ghost pre_c = configs@.take(p as int);
            let problem = &problems[p];
            let config = &configs[p];
            let (score, subtask_scores) = calculate_problem_final_score(
                &all_submissions,
                user.id,
                problem.id,
                config,
            );
            let cnt = count_submissions_for(&all_submissions, user.id, problem.id);
            let submission_count: i32 = if cnt >= 0x7fffffff {
                i32::MAX
            } else {
                cnt as i32
            };
            let max_score = problem_max_score(config);
            problem_scores.push(
                ProblemScore {
                    problem_id: problem.id,
                    problem_title: problem.title.clone(),
                    score,
                    max_score,
                    submission_count,
                    subtask_scores,
                },
            );
            acc = acc + score as i128;
            p = p + 1;
            proof {
                assert(problems@.take(p as int).drop_last() =~= pre_p);
                assert(configs@.take(p as int).drop_last() =~= pre_c);
                assert(problems@.take(p as int).last() == problems@[p - 1]);
                assert(configs@.take(p as int).last() == configs@[p - 1]);
            }
        }
        proof {
            assert(problems@.take(problems@.len() as int) =~= problems@);
            assert(configs@.take(configs@.len() as int) =~= configs@);
        }
        let total_score: i32 = if acc > i32::MAX as i128 {
            i32::MAX
        } else if acc < i32::MIN as i128 {
            i32::MIN
        } else {
            acc as i32
        };
        entries.push(LeaderboardEntry { rank: 0, user, problem_scores, total_score });
        u = u + 1;
        proof {
            assert(entries@[u - 1].user == users@[u - 1]);
        }
    }

    // stable sort by total score, descending, with a ghost permutation
    // recording where each row came from
    let ghost orig = entries@;
    let ghost n = orig.len();
    let mut sorted: Vec<LeaderboardEntry> = Vec::new();
    let ghost mut perm: Seq<int> = Seq::empty();
    let total_rows = entries.len();
    let mut processed: usize = 0;
    proof {
        assert(orig.skip(0) =~= orig);
    }
    while processed < total_rows
        invariant
            total_rows == n,
            processed <= n,
            entries@ == orig.skip(processed as int),
            n == orig.len(),
            sorted@.len() == processed,
            perm.len() == processed,
            forall|i: int| 0 <= i < perm.len() ==> 0 <= #[trigger] perm[i] < processed,
            forall|i: int, j: int| 0 <= i < j < perm.len() ==> perm[i] != perm[j],
            forall|i: int| 0 <= i < sorted@.len() ==> #[trigger] sorted@[i] == orig[perm[i]],
            forall|i: int, j: int|
                0 <= i < j < sorted@.len() ==> sorted@[i].total_score >= sorted@[j].total_score,
            forall|i: int, j: int|
                0 <= i < j < sorted@.len() && sorted@[i].total_score == sorted@[j].total_score
                    ==> perm[i] < perm[j],
        decreases entries@.len(),
    {
        let ghost s_old = sorted@;
        let ghost perm_old = perm;
        let ghost k = processed as int;
        proof {
            assert(processed < n);
        }
        let e = entries.remove(0);
        proof {
            assert(e == orig.skip(k)[0]);
            assert(orig.skip(k)[0] == orig[k]);
            assert(orig.skip(k).remove(0) =~= orig.skip(k + 1));
        }
        let mut pos: usize = 0;
        while pos < sorted.len() && sorted[pos].total_score >= e.total_score
            invariant
                pos <= sorted@.len(),
                forall|a: int|
                    0 <= a < pos ==> (#[trigger] sorted@[a]).total_score >= e.total_score,
            decreases sorted@.len() - pos,
        {
            pos = pos + 1;
        }
        proof {
            assert(pos == sorted@.len() || sorted@[pos as int].total_score < e.total_score);
        }
        sorted.insert(pos, e);
        proof {
            perm = perm_old.insert(pos as int, k);
            let s2 = sorted@;
            let p2 = perm;
            let gpos = pos as int;
            assert(s2 == s_old.insert(gpos, e));
            assert forall|t: int| 0 <= t < s2.len() implies #[trigger] s2[t] == orig[p2[t]] by {
                if t < gpos {
                    assert(s2[t] == s_old[t]);
                    assert(p2[t] == perm_old[t]);
                } else if t == gpos {
                    assert(s2[t] == e);
                    assert(p2[t] == k);
                } else {
                    assert(s2[t] == s_old[t - 1]);
                    assert(p2[t] == perm_old[t - 1]);
                }
            }
            assert forall|a: int, b: int| 0 <= a < b < s2.len() implies s2[a].total_score
                >= s2[b].total_score by {
                if b < gpos {
                } else if b == gpos {
                    assert(s2[a] == s_old[a]);
                } else if a < gpos {
                    assert(s2[a] == s_old[a] && s2[b] == s_old[b - 1]);
                    if a < b - 1 {
                    } else {
                        assert(a == b - 1);
                    }
                } else if a == gpos {
                    assert(gpos < s_old.len());
                    assert(s_old[gpos].total_score < e.total_score);
                    assert(s2[b] == s_old[b - 1]);
                    if gpos < b - 1 {
                        assert(s_old[gpos].total_score >= s_old[b - 1].total_score);
                    }
                } else {
                    assert(s2[a] == s_old[a - 1] && s2[b] == s_old[b - 1]);
                }
            }
            assert forall|a: int, b: int|
                0 <= a < b < s2.len() && s2[a].total_score == s2[b].total_score implies p2[a]
                < p2[b] by {
                if b < gpos {
                } else if b == gpos {
                    assert(p2[a] == perm_old[a] && p2[b] == k);
                } else if a < gpos {
                    assert(s2[a] == s_old[a] && s2[b] == s_old[b - 1]);
                    assert(p2[a] == perm_old[a] && p2[b] == perm_old[b - 1]);
                    if a == b - 1 {
                    }
                } else if a == gpos {
                    // rows after the insertion point have strictly smaller
                    // totals, so no tie arises here
                    assert(gpos < s_old.len());
                    assert(s2[b] == s_old[b - 1]);
                    if gpos < b - 1 {
                        assert(s_old[gpos].total_score >= s_old[b - 1].total_score);
                    }
                    assert(s_old[b - 1].total_score <= s_old[gpos].total_score);
                    assert(s_old[gpos].total_score < e.total_score);
                    assert(false);
                } else {
                    assert(s2[a] == s_old[a - 1] && s2[b] == s_old[b - 1]);
                    assert(p2[a] == perm_old[a - 1] && p2[b] == perm_old[b - 1]);
                }
            }
            assert forall|i: int| 0 <= i < p2.len() implies 0 <= #[trigger] p2[i] < processed
                + 1 by {
                if i < gpos {
                    assert(p2[i] == perm_old[i]);
                } else if i == gpos {
                    assert(p2[i] == k);
                } else {
                    assert(p2[i] == perm_old[i - 1]);
                }
            }
            assert forall|i: int, j: int| 0 <= i < j < p2.len() implies p2[i] != p2[j] by {
                let vi = if i < gpos {
                    perm_old[i]
                } else if i == gpos {
                    k
                } else {
                    perm_old[i - 1]
                };
                if i < gpos {
                    assert(p2[i] == perm_old[i]);
                } else if i == gpos {
                    assert(p2[i] == k);
                } else {
                    assert(p2[i] == perm_old[i - 1]);
                }
                if j < gpos {
                    assert(p2[j] == perm_old[j]);
                } else if j == gpos {
                    assert(p2[j] == k);
                } else {
                    assert(p2[j] == perm_old[j - 1]);
                }
            }
        }
        processed = processed + 1;
    }
    proof {
        assert(orig.skip(n as int) =~= Seq::<LeaderboardEntry>::empty());
        assert(processed == n);
    }

    // dense competition ranks against the sorted totals
    let ghost ts = totals_of(sorted@);
    let mut ranks: Vec<i32> = Vec::new();
    let mut i: usize = 0;
    while i < sorted.len()
        invariant
            i <= sorted@.len(),
            ranks@.len() == i,
            ts == totals_of(sorted@),
            forall|t: int|
                0 <= t < i ==> (#[trigger] ranks@[t]) as int == clamp_i32(
                    1 + count_gt(ts, sorted@[t].total_score as int),
                ),
        decreases sorted@.len() - i,
    {
        let target = sorted[i].total_score;
        let mut cnt: usize = 0;
        let mut j: usize = 0;
        proof {
            assert(ts.take(0) =~= Seq::<int>::empty());
        }
        while j < sorted.len()
            invariant
                j <= sorted@.len(),
                cnt <= j,
                ts == totals_of(sorted@),
                cnt as int == count_gt(ts.take(j as int), target as int),
            decreases sorted@.len() - j,
        {
            let ghost pre = ts.take(j as int);
            if sorted[j].total_score > target {
                cnt = cnt + 1;
            }
            j = j + 1;
            proof {
                assert(ts.take(j as int).drop_last() =~= pre);
                assert(ts.take(j as int).last() == ts[j - 1]);
                assert(ts[j - 1] == sorted@[j - 1].total_score as int);
            }
        }
        proof {
            assert(ts.take(ts.len() as int) =~= ts);
        }
        let rank: i32 = if cnt >= 0x7fffffff {
            i32::MAX
        } else {
            (cnt + 1) as i32
        };
        ranks.push(rank);
        i = i + 1;
    }

    // attach the ranks
    let ghost sorted_orig = sorted@;
    let row_count = sorted.len();
    let mut out: Vec<LeaderboardEntry> = Vec::new();
    let mut t: usize = 0;
    proof {
        assert(sorted_orig.skip(0) =~= sorted_orig);
    }
    while t < row_count
        invariant
            row_count == sorted_orig.len(),
            t <= sorted_orig.len(),
            sorted@ == sorted_orig.skip(t as int),
            out@.len() == t,
            ranks@.len() == sorted_orig.len(),
            forall|a: int|
                0 <= a < t ==> {
                    &&& (#[trigger] out@[a]).rank == ranks@[a]
                    &&& out@[a].user == sorted_orig[a].user
                    &&& out@[a].problem_scores == sorted_orig[a].problem_scores
                    &&& out@[a].total_score == sorted_orig[a].total_score
                },
        decreases sorted@.len(),
    {
        let ghost gt = t as int;
        let e = sorted.remove(0);
        proof {
            assert(e == sorted_orig.skip(gt)[0]);
            assert(sorted_orig.skip(gt)[0] == sorted_orig[gt]);
            assert(sorted_orig.skip(gt).remove(0) =~= sorted_orig.skip(gt + 1));
        }
        let rank = ranks[t];
        out.push(LeaderboardEntry { rank, ..e });
        t = t + 1;
    }
    proof {
        assert(sorted_orig.skip(sorted_orig.len() as int) =~= Seq::<LeaderboardEntry>::empty());
        assert(t == sorted_orig.len());
        assert(totals_of(out@) =~= ts);
        assert forall|a: int| 0 <= a < out@.len() implies entry_matches(
            #[trigger] out@[a],
            users@[perm[a]],
            problems@,
            configs@,
            all_submissions@,
        ) by {
            assert(sorted_orig[a] == orig[perm[a]]);
            assert(entry_matches(orig[perm[a]], users@[perm[a]], problems@, configs@,
                all_submissions@));
            assert(out@[a].user == orig[perm[a]].user);
            assert(out@[a].problem_scores == orig[perm[a]].problem_scores);
            assert(out@[a].total_score == orig[perm[a]].total_score);
        }
        assert(is_stable_leaderboard_perm(
            perm,
            out@,
            users@,
            problems@,
            configs@,
            all_submissions@,
        ));
    }
    out
}

/// One page of the ranked list: the offset slice starting at
/// `(page - 1) * page_size`, of at most `page_size` rows; empty when the
/// page lies beyond the end or either parameter is below 1.
pub open spec fn page_slice(entries: Seq<LeaderboardEntry>, page: int, page_size: int) -> Seq<
    LeaderboardEntry,
> {
    if page < 1 || page_size < 1 {
        Seq::empty()
    } else {
        let start = (page - 1) * page_size;
        if start >= entries.len() {
            Seq::empty()
        } else if start + page_size <= entries.len() {
            entries.subrange(start, start + page_size)
        } else {
            entries.subrange(start, entries.len() as int)
        }
    }
}

/// The requested page of the ranked list.
pub fn paginate_entries(entries: Vec<LeaderboardEntry>, page: i32, page_size: i32) -> (out: Vec<
    LeaderboardEntry,
>)
    ensures
        out@ == page_slice(entries@, page as int, page_size as int),
{
    let ghost all = entries@;
    if page < 1 || page_size < 1 {
        return Vec::new();
    }
    let pm1: u64 = (page - 1) as u64;
    let psz: u64 = page_size as u64;
    proof {
        assert((pm1 as int) * (psz as int) < 0x8000000000000000) by (nonlinear_arith)
            requires
                0 <= pm1 as int <= 0x7fffffff,
                0 <= psz as int <= 0x7fffffff,
        ;
    }
    let start_u: u64 = pm1 * psz;
    proof {
        assert(start_u as int == (page as int - 1) * (page_size as int));
    }
    if start_u >= entries.len() as u64 {
        return Vec::new();
    }
    let start: usize = start_u as usize;
    let mut head = entries;
    let mut tail = head.split_off(start);
    if (page_size as usize) < tail.len() {
        tail.truncate(page_size as usize);
        proof {
            assert(tail@ =~= all.subrange(start as int, start as int + page_size as int));
        }
    } else {
        proof {
            assert(tail@ =~= all.subrange(start as int, all.len() as int));
        }
    }
    tail
}

} // verus!
