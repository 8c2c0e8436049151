//! Status-update streaks: what sending, or failing to send, a daily update
//! does to a member's counters.
use vstd::prelude::*;
use crate::models::{StatusUpdateStreak, StreakUpdate};

verus! {

/// A member's streak after a day with or without an update: an update adds
/// one to the streak (a missing streak counts as 0) and lifts the maximum to
/// it; no update resets the streak to 0 and keeps the maximum.
pub open spec fn updated_streak_spec(current: StreakUpdate, has_sent_update: bool) -> StreakUpdate {
    let streak = match current.streak { Some(s) => s as int, None => 0 };
    let max = match current.max_streak { Some(m) => m as int, None => 0 };
    if has_sent_update {
        StreakUpdate {
            id: current.id,
            streak: Some((streak + 1) as i32),
            max_streak: Some(if streak + 1 > max { (streak + 1) as i32 } else { max as i32 }),
        }
    } else {
        StreakUpdate { id: current.id, streak: Some(0), max_streak: Some(max as i32) }
    }
}

pub fn updated_streak(current: StreakUpdate, has_sent_update: bool) -> (r: StreakUpdate)
    requires
        has_sent_update ==> (current.streak matches Some(s) ==> s < i32::MAX),
    ensures
        r == updated_streak_spec(current, has_sent_update),
{
    let streak = match current.streak { Some(s) => s, None => 0 };
    let max = match current.max_streak { Some(m) => m, None => 0 };
    if has_sent_update {
        let next = streak + 1;
        StreakUpdate { id: current.id, streak: Some(next), max_streak: Some(if next > max { next } else { max }) }
    } else {
        StreakUpdate { id: current.id, streak: Some(0), max_streak: Some(max) }
    }
}

/// The streak row after an update is recorded: a new row starts at 1/1; an
/// existing one grows by one from a non-negative streak and restarts at 1
/// after resets, and its maximum becomes the larger of the old maximum and
/// the old streak plus one.
pub open spec fn incremented_streak_spec(member_id: i32, existing: Option<StatusUpdateStreak>) -> StatusUpdateStreak {
    match existing {
        None => StatusUpdateStreak { member_id, current_streak: 1, max_streak: 1 },
        Some(s) => {
            let grown = s.current_streak + 1;
            StatusUpdateStreak {
                member_id,
                current_streak: if s.current_streak >= 0 { grown as i32 } else { 1 },
                max_streak: if s.max_streak >= grown { s.max_streak } else { grown as i32 },
            }
        },
    }
}

pub fn incremented_streak(member_id: i32, existing: Option<StatusUpdateStreak>) -> (r: StatusUpdateStreak)
    requires
        existing matches Some(s) ==> s.current_streak < i32::MAX,
    ensures
        r == incremented_streak_spec(member_id, existing),
{
    match existing {
        None => StatusUpdateStreak { member_id, current_streak: 1, max_streak: 1 },
        Some(s) => {
            let grown = s.current_streak + 1;
            StatusUpdateStreak {
                member_id,
                current_streak: if s.current_streak >= 0 { grown } else { 1 },
                max_streak: if s.max_streak >= grown { s.max_streak } else { grown },
            }
        },
    }
}

/// The streak row after a day without an update: a new row starts at 0/0; a
/// positive streak drops to 0, and a streak at or below 0 goes one further
/// down, counting the missed days. The maximum is kept.
pub open spec fn reset_streak_spec(member_id: i32, existing: Option<StatusUpdateStreak>) -> StatusUpdateStreak {
    match existing {
        None => StatusUpdateStreak { member_id, current_streak: 0, max_streak: 0 },
        Some(s) => StatusUpdateStreak {
            member_id,
            current_streak: if s.current_streak > 0 { 0 } else { (s.current_streak - 1) as i32 },
            max_streak: s.max_streak,
        },
    }
}

pub fn reset_streak(member_id: i32, existing: Option<StatusUpdateStreak>) -> (r: StatusUpdateStreak)
    requires
        existing matches Some(s) ==> s.current_streak > i32::MIN,
    ensures
        r == reset_streak_spec(member_id, existing),
{
    match existing {
        None => StatusUpdateStreak { member_id, current_streak: 0, max_streak: 0 },
        Some(s) => StatusUpdateStreak {
            member_id,
            current_streak: if s.current_streak > 0 { 0 } else { s.current_streak - 1 },
            max_streak: s.max_streak,
        },
    }
}

} // verus!
