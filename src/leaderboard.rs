//! Competitive-programming statistics and the unified leaderboard score.
use vstd::prelude::*;

verus! {

#[derive(Clone, Debug, PartialEq, Eq)]
pub struct LeetCodeStats {
    pub id: i32,
    pub member_id: i32,
    pub leetcode_username: String,
    pub problems_solved: i32,
    pub easy_solved: i32,
    pub medium_solved: i32,
    pub hard_solved: i32,
    pub contests_participated: i32,
    pub best_rank: i32,
    pub total_contests: i32,
}

#[derive(Clone, Debug, PartialEq, Eq)]
pub struct LeetCodeStatsWithName {
    pub id: i32,
    pub member_id: i32,
    pub member_name: String,
    pub leetcode_username: String,
    pub problems_solved: i32,
    pub easy_solved: i32,
    pub medium_solved: i32,
    pub hard_solved: i32,
    pub contests_participated: i32,
    pub best_rank: i32,
    pub total_contests: i32,
}

#[derive(Clone, Debug, PartialEq, Eq)]
pub struct CodeforcesStats {
    pub id: i32,
    pub member_id: i32,
    pub codeforces_handle: String,
    pub codeforces_rating: i32,
    pub max_rating: i32,
    pub contests_participated: i32,
}

#[derive(Clone, Debug, PartialEq, Eq)]
pub struct CodeforcesStatsWithName {
    pub id: i32,
    pub member_id: i32,
    pub member_name: String,
    pub codeforces_handle: String,
    pub codeforces_rating: i32,
    pub max_rating: i32,
    pub contests_participated: i32,
}

/// One leaderboard entry.
#[derive(Clone, Copy, Debug, PartialEq, Eq, Structural)]
pub struct ScoreRow {
    pub member_id: i32,
    pub leetcode_score: i64,
    pub codeforces_score: i64,
    pub unified_score: i64,
}

/// Integer division rounding toward zero, as Rust's `/` does.
pub open spec fn div_trunc(a: int, b: int) -> int {
    if a >= 0 {
        a / b
    } else {
        -((-a) / b)
    }
}

/// The LeetCode part of the score: weighted solved counts, contests, and a
/// bonus that shrinks as the best rank grows, never below zero.
pub open spec fn leetcode_score_spec(s: LeetCodeStats) -> int {
    let bonus = 100 - div_trunc(s.best_rank as int, 10);
    5 * s.easy_solved + 10 * s.medium_solved + 20 * s.hard_solved + 2 * s.contests_participated
        + if bonus > 0 { bonus } else { 0 }
}

/// The Codeforces part of the score.
pub open spec fn codeforces_score_spec(s: CodeforcesStats) -> int {
    div_trunc(s.codeforces_rating as int, 10) + div_trunc(s.max_rating as int, 20) + 5 * s.contests_participated
}

/// The Codeforces score of `member_id`: from the last of its rows, 0 without one.
pub open spec fn codeforces_score_of(cf: Seq<CodeforcesStats>, member_id: i32) -> int
    decreases cf.len(),
{
    if cf.len() == 0 {
        0
    } else if cf.last().member_id == member_id {
        codeforces_score_spec(cf.last())
    } else {
        codeforces_score_of(cf.drop_last(), member_id)
    }
}

pub open spec fn has_leetcode(lc: Seq<LeetCodeStats>, member_id: i32) -> bool {
    exists|i: int| 0 <= i < lc.len() && (#[trigger] lc[i]).member_id == member_id
}

/// The entry of a member with LeetCode statistics.
pub open spec fn leetcode_row(s: LeetCodeStats, cf: Seq<CodeforcesStats>) -> ScoreRow {
    let l = leetcode_score_spec(s);
    let c = codeforces_score_of(cf, s.member_id);
    ScoreRow { member_id: s.member_id, leetcode_score: l as i64, codeforces_score: c as i64, unified_score: (l + c) as i64 }
}

/// The entry of a member with Codeforces statistics alone.
pub open spec fn codeforces_row(s: CodeforcesStats) -> ScoreRow {
    let c = codeforces_score_spec(s);
    ScoreRow { member_id: s.member_id, leetcode_score: 0, codeforces_score: c as i64, unified_score: c as i64 }
}

/// The entries for the Codeforces rows of members without LeetCode statistics.
pub open spec fn codeforces_only_rows(lc: Seq<LeetCodeStats>, cf: Seq<CodeforcesStats>) -> Seq<ScoreRow>
    decreases cf.len(),
{
    if cf.len() == 0 {
        Seq::empty()
    } else {
        let rest = codeforces_only_rows(lc, cf.drop_last());
        if has_leetcode(lc, cf.last().member_id) {
            rest
        } else {
            rest.push(codeforces_row(cf.last()))
        }
    }
}

/// The leaderboard: one entry per LeetCode row, in order, then one per
/// Codeforces row of a member without LeetCode statistics.
pub open spec fn leaderboard_spec(lc: Seq<LeetCodeStats>, cf: Seq<CodeforcesStats>) -> Seq<ScoreRow> {
    lc.map_values(|s: LeetCodeStats| leetcode_row(s, cf)) + codeforces_only_rows(lc, cf)
}

fn div_trunc_exec(a: i64, b: i64) -> (r: i64)
    requires
        b > 0,
        a > i64::MIN,
    ensures
        r == div_trunc(a as int, b as int),
{
    if a >= 0 {
        a / b
    } else {
        -((-a) / b)
    }
}

proof fn lemma_div_trunc_bounds(a: int, b: int)
    requires
        b >= 1,
    ensures
        -(if a >= 0 { a } else { -a }) <= div_trunc(a, b) <= (if a >= 0 { a } else { -a }),
{
    assert(0 <= (if a >= 0 { a } else { -a }) / b <= (if a >= 0 { a } else { -a })) by (nonlinear_arith)
        requires b >= 1;
}

/// The LeetCode part of the score of one row.
pub fn leetcode_score(s: &LeetCodeStats) -> (r: i64)
    ensures
        r == leetcode_score_spec(*s),
{
    proof {
        lemma_div_trunc_bounds(s.best_rank as int, 10);
    }
    let bonus = 100 - div_trunc_exec(s.best_rank as i64, 10);
    5 * (s.easy_solved as i64) + 10 * (s.medium_solved as i64) + 20 * (s.hard_solved as i64)
        + 2 * (s.contests_participated as i64) + if bonus > 0 { bonus } else { 0 }
}

/// The Codeforces part of the score of one row.
pub fn codeforces_score(s: &CodeforcesStats) -> (r: i64)
    ensures
        r == codeforces_score_spec(*s),
{
    proof {
        lemma_div_trunc_bounds(s.codeforces_rating as int, 10);
        lemma_div_trunc_bounds(s.max_rating as int, 20);
    }
    div_trunc_exec(s.codeforces_rating as i64, 10) + div_trunc_exec(s.max_rating as i64, 20)
        + 5 * (s.contests_participated as i64)
}

proof fn lemma_score_bounds(lc: LeetCodeStats, cf: Seq<CodeforcesStats>, m: i32)
    ensures
        -1099511627776 <= leetcode_score_spec(lc) <= 1099511627776,
        -1099511627776 <= codeforces_score_of(cf, m) <= 1099511627776,
    decreases cf.len(),
{
    lemma_div_trunc_bounds(lc.best_rank as int, 10);
    if cf.len() > 0 {
        let s = cf.last();
        lemma_div_trunc_bounds(s.codeforces_rating as int, 10);
        lemma_div_trunc_bounds(s.max_rating as int, 20);
        lemma_score_bounds(lc, cf.drop_last(), m);
    }
}

fn codeforces_score_for(cf: &Vec<CodeforcesStats>, member_id: i32) -> (r: i64)
    ensures
        r == codeforces_score_of(cf@, member_id),
{
    let mut i: usize = cf.len();
    proof {
        assert(cf@.subrange(0, i as int) =~= cf@);
    }
    while i > 0
        invariant
            i <= cf@.len(),
            forall|j: int| i <= j < cf@.len() ==> (#[trigger] cf@[j]).member_id != member_id,
            codeforces_score_of(cf@, member_id) == codeforces_score_of(cf@.subrange(0, i as int), member_id),
        decreases i,
    {
        let ghost pre = cf@.subrange(0, i as int);
        proof {
            assert(pre.drop_last() =~= cf@.subrange(0, i - 1));
            assert(pre.last() == cf@[i - 1]);
        }
        if cf[i - 1].member_id == member_id {
            return codeforces_score(&cf[i - 1]);
        }
        i = i - 1;
    }
    proof {
        assert(cf@.subrange(0, 0) =~= Seq::<CodeforcesStats>::empty());
    }
    0
}

fn has_leetcode_exec(lc: &Vec<LeetCodeStats>, member_id: i32) -> (r: bool)
    ensures
        r == has_leetcode(lc@, member_id),
{
    let mut i: usize = 0;
    while i < lc.len()
        invariant
            i <= lc@.len(),
            forall|j: int| 0 <= j < i ==> (#[trigger] lc@[j]).member_id != member_id,
        decreases lc@.len() - i,
    {
        if lc[i].member_id == member_id {
            return true;
        }
        i = i + 1;
    }
    false
}

/// The leaderboard entries computed from all LeetCode and Codeforces rows:
/// each LeetCode row's member gets its LeetCode score plus the Codeforces
/// score of the last Codeforces row for the same member, if any; each
/// Codeforces row of a member without LeetCode statistics gets its
/// Codeforces score alone.
pub fn leaderboard_scores(lc: &Vec<LeetCodeStats>, cf: &Vec<CodeforcesStats>) -> (r: Vec<ScoreRow>)
    ensures
        r@ == leaderboard_spec(lc@, cf@),
{
    let mut rows: Vec<ScoreRow> = Vec::new();
    let mut i: usize = 0;
    while i < lc.len()
        invariant
            i <= lc@.len(),
            rows@ == lc@.subrange(0, i as int).map_values(|s: LeetCodeStats| leetcode_row(s, cf@)),
        decreases lc@.len() - i,
    {
        let l = leetcode_score(&lc[i]);
        let c = codeforces_score_for(cf, lc[i].member_id);
        proof {
            lemma_score_bounds(lc@[i as int], cf@, lc@[i as int].member_id);
        }
        rows.push(ScoreRow { member_id: lc[i].member_id, leetcode_score: l, codeforces_score: c, unified_score: l + c });
        i = i + 1;
        proof {
            assert(rows@ =~= lc@.subrange(0, i as int).map_values(|s: LeetCodeStats| leetcode_row(s, cf@)));
        }
    }
    proof {
        assert(lc@.subrange(0, i as int) =~= lc@);
    }
    let ghost head = rows@;
    let mut j: usize = 0;
    while j < cf.len()
        invariant
            j <= cf@.len(),
            rows@ == head + codeforces_only_rows(lc@, cf@.subrange(0, j as int)),
        decreases cf@.len() - j,
    {
        let ghost pre = cf@.subrange(0, j + 1);
        proof {
            assert(pre.drop_last() =~= cf@.subrange(0, j as int));
            assert(pre.last() == cf@[j as int]);
        }
        if !has_leetcode_exec(lc, cf[j].member_id) {
            let c = codeforces_score(&cf[j]);
            rows.push(ScoreRow { member_id: cf[j].member_id, leetcode_score: 0, codeforces_score: c, unified_score: c });
            proof {
                assert(rows@ =~= head + codeforces_only_rows(lc@, pre));
            }
        }
        j = j + 1;
    }
    proof {
        assert(cf@.subrange(0, j as int) =~= cf@);
    }
    rows
}

/// Solved-problem counts by difficulty, as LeetCode reports them.
#[derive(Clone, Copy, Debug, PartialEq, Eq, Structural)]
pub struct SolvedCounts {
    pub all: i32,
    pub easy: i32,
    pub medium: i32,
    pub hard: i32,
}

/// The counts after reading one reported (difficulty, count) pair: the count
/// is kept for a known difficulty, truncated to 32 bits, and a later pair for
/// the same difficulty wins.
pub open spec fn read_count(c: SolvedCounts, difficulty: Seq<char>, count: i64) -> SolvedCounts {
    let n = count as i32;
    if difficulty == "Easy"@ {
        SolvedCounts { easy: n, ..c }
    } else if difficulty == "Medium"@ {
        SolvedCounts { medium: n, ..c }
    } else if difficulty == "Hard"@ {
        SolvedCounts { hard: n, ..c }
    } else if difficulty == "All"@ {
        SolvedCounts { all: n, ..c }
    } else {
        c
    }
}

pub open spec fn solved_counts_spec(stats: Seq<(String, i64)>) -> SolvedCounts
    decreases stats.len(),
{
    if stats.len() == 0 {
        SolvedCounts { all: 0, easy: 0, medium: 0, hard: 0 }
    } else {
        read_count(solved_counts_spec(stats.drop_last()), stats.last().0@, stats.last().1)
    }
}

/// The solved counts from LeetCode's list of (difficulty, count) pairs;
/// a difficulty that is not reported counts 0.
pub fn solved_counts(stats: &Vec<(String, i64)>) -> (r: SolvedCounts)
    ensures
        r == solved_counts_spec(stats@),
{
    let easy = String::from_str("Easy");
    let medium = String::from_str("Medium");
    let hard = String::from_str("Hard");
    let all = String::from_str("All");
    let mut c = SolvedCounts { all: 0, easy: 0, medium: 0, hard: 0 };
    let mut i: usize = 0;
    while i < stats.len()
        invariant
            i <= stats@.len(),
            easy@ == "Easy"@,
            medium@ == "Medium"@,
            hard@ == "Hard"@,
            all@ == "All"@,
            c == solved_counts_spec(stats@.subrange(0, i as int)),
        decreases stats@.len() - i,
    {
        let ghost pre = stats@.subrange(0, i + 1);
        proof {
            assert(pre.drop_last() =~= stats@.subrange(0, i as int));
            assert(pre.last() == stats@[i as int]);
        }
        let n = stats[i].1 as i32;
        let d = &stats[i].0;
        if *d == easy {
            c = SolvedCounts { easy: n, ..c };
        } else if *d == medium {
            c = SolvedCounts { medium: n, ..c };
        } else if *d == hard {
            c = SolvedCounts { hard: n, ..c };
        } else if *d == all {
            c = SolvedCounts { all: n, ..c };
        }
        i = i + 1;
    }
    proof {
        assert(stats@.subrange(0, i as int) =~= stats@);
    }
    c
}

/// What a member's Codeforces contest history gives: the rating after the
/// last rated contest, the highest rating (never below 0), and the number of
/// contests.
#[derive(Clone, Copy, Debug, PartialEq, Eq, Structural)]
pub struct RatingSummary {
    pub rating: i32,
    pub max_rating: i32,
    pub contests: i32,
}

pub open spec fn rating_summary_spec(new_ratings: Seq<Option<i64>>) -> (i32, i32)
    decreases new_ratings.len(),
{
    if new_ratings.len() == 0 {
        (0, 0)
    } else {
        let (rating, max) = rating_summary_spec(new_ratings.drop_last());
        match new_ratings.last() {
            Some(r) => {
                let now = r as i32;
                (now, if max >= now { max } else { now })
            },
            None => (rating, max),
        }
    }
}

/// Summarizes the new ratings reported after each contest; a contest without
/// a reported rating counts as a contest only. Ratings are truncated to 32 bits.
pub fn rating_summary(new_ratings: &Vec<Option<i64>>) -> (r: RatingSummary)
    ensures
        r.rating == rating_summary_spec(new_ratings@).0,
        r.max_rating == rating_summary_spec(new_ratings@).1,
        r.contests == new_ratings@.len() as i32,
{
    let mut rating: i32 = 0;
    let mut max_rating: i32 = 0;
    let mut i: usize = 0;
    while i < new_ratings.len()
        invariant
            i <= new_ratings@.len(),
            (rating, max_rating) == rating_summary_spec(new_ratings@.subrange(0, i as int)),
        decreases new_ratings@.len() - i,
    {
        let ghost pre = new_ratings@.subrange(0, i + 1);
        proof {
            assert(pre.drop_last() =~= new_ratings@.subrange(0, i as int));
            assert(pre.last() == new_ratings@[i as int]);
        }
        match new_ratings[i] {
            Some(v) => {
                rating = v as i32;
                if rating > max_rating {
                    max_rating = rating;
                }
            },
            None => {},
        }
        i = i + 1;
    }
    proof {
        assert(new_ratings@.subrange(0, i as int) =~= new_ratings@);
    }
    RatingSummary { rating, max_rating, contests: new_ratings.len() as i32 }
}

} // verus!
