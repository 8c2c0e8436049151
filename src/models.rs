//! Plain records of the store: members, projects, attendance summaries and
//! status-update streaks.
use vstd::prelude::*;

verus! {

#[derive(Clone, Copy, Debug, PartialEq, Eq, Structural)]
pub enum Sex {
    M,
    F,
    Other,
}

/// What an administrator gives to create a member.
#[derive(Clone, Debug, PartialEq, Eq)]
pub struct CreateMemberInput {
    pub roll_no: String,
    pub name: String,
    pub email: String,
    pub sex: Sex,
    pub year: i32,
    pub hostel: String,
    pub mac_address: String,
    pub discord_id: String,
    pub group_id: i32,
}

/// A member's days-attended counter for one month.
#[derive(Clone, Copy, Debug, PartialEq, Eq, Structural)]
pub struct AttendanceSummary {
    pub member_id: i32,
    pub year: i32,
    pub month: i32,
    pub days_attended: i32,
}

/// A days-attended counter as seen from its member.
#[derive(Clone, Copy, Debug, PartialEq, Eq, Structural)]
pub struct AttendanceSummaryInfo {
    pub year: i32,
    pub month: i32,
    pub days_attended: i32,
}

#[derive(Clone, Debug, PartialEq, Eq)]
pub struct Project {
    pub project_id: i32,
    pub member_id: i32,
    pub title: Option<String>,
}

#[derive(Clone, Debug, PartialEq, Eq)]
pub struct SetProjectInput {
    pub member_id: i32,
    pub title: String,
}

#[derive(Clone, Debug, PartialEq, Eq)]
pub struct ActiveProjects {
    pub id: i32,
    pub member_id: i32,
    pub project_title: Option<String>,
}

/// A member's status-update streak. A negative current streak counts the
/// resets in a row since the last update.
#[derive(Clone, Copy, Debug, PartialEq, Eq, Structural)]
pub struct StatusUpdateStreak {
    pub member_id: i32,
    pub current_streak: i32,
    pub max_streak: i32,
}

#[derive(Clone, Copy, Debug, PartialEq, Eq, Structural)]
pub struct StatusUpdateStreakInfo {
    pub current_streak: i32,
    pub max_streak: i32,
}

#[derive(Clone, Copy, Debug, PartialEq, Eq, Structural)]
pub struct StreakInput {
    pub member_id: i32,
}

/// A member's update streak as the member table holds it.
#[derive(Clone, Copy, Debug, PartialEq, Eq, Structural)]
pub struct StreakUpdate {
    pub id: i32,
    pub streak: Option<i32>,
    pub max_streak: Option<i32>,
}

/// The key by which one member is looked up.
#[derive(Clone, Debug, PartialEq, Eq)]
pub enum MemberKey {
    Id(i32),
    RollNo(String),
    DiscordId(String),
}

/// Picks the lookup key among those given: the id first, then the roll
/// number, then the Discord id; `None` where none is given.
pub fn member_lookup_key(member_id: Option<i32>, roll_no: Option<String>, discord_id: Option<String>) -> (r: Option<MemberKey>)
    ensures
        r == (match (member_id, roll_no, discord_id) {
            (Some(id), _, _) => Some(MemberKey::Id(id)),
            (None, Some(roll), _) => Some(MemberKey::RollNo(roll)),
            (None, None, Some(discord)) => Some(MemberKey::DiscordId(discord)),
            (None, None, None) => None::<MemberKey>,
        }),
{
    match (member_id, roll_no, discord_id) {
        (Some(id), _, _) => Some(MemberKey::Id(id)),
        (None, Some(roll), _) => Some(MemberKey::RollNo(roll)),
        (None, None, Some(discord)) => Some(MemberKey::DiscordId(discord)),
        (None, None, None) => None,
    }
}

} // verus!
