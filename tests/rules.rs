use hmac::Mac;

use root::batch::AttendanceRecord;
use root::leaderboard::{codeforces_score, leaderboard_scores, leetcode_score, rating_summary, CodeforcesStats, LeetCodeStats, RatingSummary, ScoreRow};
use root::marking::{marked_present, signature_matches, verify_attendance_signature, SignatureError};
use root::models::{member_lookup_key, MemberKey, StatusUpdateStreak, StreakUpdate};
use root::streak::{incremented_streak, reset_streak, updated_streak};

fn lc(member_id: i32, easy: i32, medium: i32, hard: i32, contests: i32, best_rank: i32) -> LeetCodeStats {
    LeetCodeStats {
        id: member_id,
        member_id,
        leetcode_username: format!("user{}", member_id),
        problems_solved: easy + medium + hard,
        easy_solved: easy,
        medium_solved: medium,
        hard_solved: hard,
        contests_participated: contests,
        best_rank,
        total_contests: contests,
    }
}

fn cf(member_id: i32, rating: i32, max_rating: i32, contests: i32) -> CodeforcesStats {
    CodeforcesStats {
        id: member_id,
        member_id,
        codeforces_handle: format!("handle{}", member_id),
        codeforces_rating: rating,
        max_rating,
        contests_participated: contests,
    }
}

#[test]
fn leetcode_score_formula() {
    assert_eq!(leetcode_score(&lc(1, 10, 5, 2, 3, 500)), 50 + 50 + 40 + 6 + 50);
    assert_eq!(leetcode_score(&lc(1, 0, 0, 0, 0, 2000)), 0);
    assert_eq!(leetcode_score(&lc(1, 0, 0, 0, 0, -15)), 101);
    assert_eq!(leetcode_score(&lc(1, 0, 0, 0, 0, 999)), 1);
}

#[test]
fn codeforces_score_formula() {
    assert_eq!(codeforces_score(&cf(1, 1500, 1600, 10)), 150 + 80 + 50);
    assert_eq!(codeforces_score(&cf(1, -25, -39, 0)), -2 - 1);
}

#[test]
fn leaderboard_merges_both_sources() {
    let lcs = vec![lc(1, 10, 5, 2, 3, 500), lc(2, 1, 0, 0, 0, 1000)];
    let cfs = vec![cf(1, 1000, 1000, 0), cf(3, 1500, 1600, 10), cf(1, 1500, 1600, 10)];
    let rows = leaderboard_scores(&lcs, &cfs);
    assert_eq!(
        rows,
        vec![
            ScoreRow { member_id: 1, leetcode_score: 196, codeforces_score: 280, unified_score: 476 },
            ScoreRow { member_id: 2, leetcode_score: 5, codeforces_score: 0, unified_score: 5 },
            ScoreRow { member_id: 3, leetcode_score: 0, codeforces_score: 280, unified_score: 280 },
        ]
    );
}

#[test]
fn leaderboard_of_nothing_is_empty() {
    assert!(leaderboard_scores(&Vec::new(), &Vec::new()).is_empty());
}

#[test]
fn streak_after_update_and_without() {
    let s = StreakUpdate { id: 1, streak: Some(4), max_streak: Some(4) };
    assert_eq!(updated_streak(s, true), StreakUpdate { id: 1, streak: Some(5), max_streak: Some(5) });
    assert_eq!(updated_streak(s, false), StreakUpdate { id: 1, streak: Some(0), max_streak: Some(4) });
    let fresh = StreakUpdate { id: 2, streak: None, max_streak: None };
    assert_eq!(updated_streak(fresh, true), StreakUpdate { id: 2, streak: Some(1), max_streak: Some(1) });
    let behind = StreakUpdate { id: 3, streak: Some(1), max_streak: Some(9) };
    assert_eq!(updated_streak(behind, true), StreakUpdate { id: 3, streak: Some(2), max_streak: Some(9) });
}

#[test]
fn status_streak_increment_and_reset() {
    assert_eq!(incremented_streak(7, None), StatusUpdateStreak { member_id: 7, current_streak: 1, max_streak: 1 });
    let s = StatusUpdateStreak { member_id: 7, current_streak: 3, max_streak: 3 };
    assert_eq!(incremented_streak(7, Some(s)), StatusUpdateStreak { member_id: 7, current_streak: 4, max_streak: 4 });
    let missed = StatusUpdateStreak { member_id: 7, current_streak: -2, max_streak: 5 };
    assert_eq!(incremented_streak(7, Some(missed)), StatusUpdateStreak { member_id: 7, current_streak: 1, max_streak: 5 });
    assert_eq!(reset_streak(7, None), StatusUpdateStreak { member_id: 7, current_streak: 0, max_streak: 0 });
    assert_eq!(reset_streak(7, Some(s)), StatusUpdateStreak { member_id: 7, current_streak: 0, max_streak: 3 });
    assert_eq!(reset_streak(7, Some(missed)), StatusUpdateStreak { member_id: 7, current_streak: -3, max_streak: 5 });
}

fn signature(secret: &str, message: &str) -> String {
    let mut mac = hmac::Hmac::<sha2::Sha256>::new_from_slice(secret.as_bytes()).unwrap();
    mac.update(message.as_bytes());
    hex::encode(mac.finalize().into_bytes())
}

fn day(y: i32, m: u32, d: u32) -> i32 {
    chrono::Datelike::num_days_from_ce(&chrono::NaiveDate::from_ymd_opt(y, m, d).unwrap())
}

#[test]
fn attendance_signature_checks() {
    let date = day(2025, 1, 15);
    let good = signature("s3cret", "422025-01-15");
    assert_eq!(verify_attendance_signature("s3cret", 42, date, &good), Ok(()));
    assert_eq!(verify_attendance_signature("s3cret", 42, date, &good.to_uppercase()), Ok(()));
    assert_eq!(verify_attendance_signature("other", 42, date, &good), Err(SignatureError::Mismatch));
    assert_eq!(verify_attendance_signature("s3cret", 43, date, &good), Err(SignatureError::Mismatch));
    assert_eq!(verify_attendance_signature("s3cret", 42, date + 1, &good), Err(SignatureError::Mismatch));
    assert_eq!(verify_attendance_signature("s3cret", 42, date, "zz"), Err(SignatureError::InvalidHex));
    assert_eq!(verify_attendance_signature("s3cret", 42, date, "abc"), Err(SignatureError::InvalidHex));
    assert_eq!(verify_attendance_signature("s3cret", 42, i32::MAX, &good), Err(SignatureError::InvalidDate));
}

#[test]
fn signature_compare() {
    assert_eq!(signature_matches(&[0xab, 0x01], "ab01"), Ok(()));
    assert_eq!(signature_matches(&[0xab, 0x01], "AB01"), Ok(()));
    assert_eq!(signature_matches(&[0xab, 0x01], "ab02"), Err(SignatureError::Mismatch));
    assert_eq!(signature_matches(&[0xab, 0x01], "ab"), Err(SignatureError::Mismatch));
    assert_eq!(signature_matches(&[0xab], "a"), Err(SignatureError::InvalidHex));
    assert_eq!(signature_matches(&[], ""), Ok(()));
}

#[test]
fn marking_present_fills_times() {
    let blank = AttendanceRecord { member_id: 1, date: 5, is_present: false, time_in: None, time_out: None };
    let first = marked_present(blank, 32400);
    assert_eq!(first, AttendanceRecord { member_id: 1, date: 5, is_present: true, time_in: Some(32400), time_out: Some(32400) });
    let second = marked_present(first, 36000);
    assert_eq!(second, AttendanceRecord { member_id: 1, date: 5, is_present: true, time_in: Some(32400), time_out: Some(36000) });
}

#[test]
fn member_key_priority() {
    assert_eq!(member_lookup_key(Some(1), Some("r".to_string()), None), Some(MemberKey::Id(1)));
    assert_eq!(member_lookup_key(None, Some("r".to_string()), Some("d".to_string())), Some(MemberKey::RollNo("r".to_string())));
    assert_eq!(member_lookup_key(None, None, Some("d".to_string())), Some(MemberKey::DiscordId("d".to_string())));
    assert_eq!(member_lookup_key(None, None, None), None);
}

#[test]
fn solved_counts_by_difficulty() {
    let stats = vec![
        ("All".to_string(), 30),
        ("Easy".to_string(), 10),
        ("Medium".to_string(), 15),
        ("Hard".to_string(), 5),
        ("Other".to_string(), 9),
    ];
    assert_eq!(root::leaderboard::solved_counts(&stats), root::leaderboard::SolvedCounts { all: 30, easy: 10, medium: 15, hard: 5 });
    let wrapped = vec![("Easy".to_string(), 4294967297), ("Easy".to_string(), 2)];
    assert_eq!(root::leaderboard::solved_counts(&wrapped).easy, 2);
    assert_eq!(root::leaderboard::solved_counts(&vec![("Easy".to_string(), 4294967297)]).easy, 1);
    assert_eq!(root::leaderboard::solved_counts(&Vec::new()), root::leaderboard::SolvedCounts { all: 0, easy: 0, medium: 0, hard: 0 });
}

#[test]
fn codeforces_rating_history() {
    assert_eq!(rating_summary(&vec![Some(1200), Some(1500), None, Some(1400)]), RatingSummary { rating: 1400, max_rating: 1500, contests: 4 });
    assert_eq!(rating_summary(&vec![Some(-5)]), RatingSummary { rating: -5, max_rating: 0, contests: 1 });
    assert_eq!(rating_summary(&Vec::new()), RatingSummary { rating: 0, max_rating: 0, contests: 0 });
}

#[test]
fn signature_dates_across_the_calendar() {
    assert_eq!(verify_attendance_signature("k", 1, 1, &signature("k", "10001-01-01")), Ok(()));
    assert_eq!(verify_attendance_signature("k", 1, 3652059, &signature("k", "19999-12-31")), Ok(()));
}
