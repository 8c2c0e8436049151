use std::collections::HashMap;

use root::batch::{blank_record, AttendanceRecord, BatchStep, DailyBatch, StepOutcome};

/// The tables the batch touches, with the store's insert-or-ignore rules.
#[derive(Default)]
struct Store {
    attendance: HashMap<(i32, i32), AttendanceRecord>,
    days_attended: HashMap<(i32, i32, u32), i32>,
    history: HashMap<(i32, i32), bool>,
    fail_inserts_for: Option<i32>,
}

impl Store {
    fn perform(&mut self, step: BatchStep) -> StepOutcome {
        match step {
            BatchStep::InsertAttendance { member_id, date } => {
                if self.fail_inserts_for == Some(member_id) {
                    return StepOutcome::Failed;
                }
                self.attendance.entry((member_id, date)).or_insert(blank_record(member_id, date));
                StepOutcome::Done
            }
            BatchStep::ReadPresence { member_id, date } => match self.attendance.get(&(member_id, date)) {
                Some(r) => StepOutcome::Presence(r.is_present),
                None => StepOutcome::Failed,
            },
            BatchStep::ReadDaysAttended { member_id, year, month } => {
                StepOutcome::DaysAttended(self.days_attended.get(&(member_id, year, month)).copied())
            }
            BatchStep::IncrementDaysAttended { member_id, year, month } => {
                if let Some(c) = self.days_attended.get_mut(&(member_id, year, month)) {
                    *c += 1;
                }
                StepOutcome::Done
            }
            BatchStep::CreateDaysAttended { member_id, year, month } => {
                self.days_attended.insert((member_id, year, month), 1);
                StepOutcome::Done
            }
            BatchStep::InsertStatusHistory { member_id, date } => {
                self.history.entry((member_id, date)).or_insert(false);
                StepOutcome::Done
            }
            BatchStep::Finished => StepOutcome::Done,
        }
    }

    fn run_batch(&mut self, members: &[i32], today: i32) -> Vec<BatchStep> {
        let mut batch = DailyBatch::new(members.to_vec(), today);
        let mut outcome = StepOutcome::Done;
        let mut steps = Vec::new();
        loop {
            let step = batch.next(outcome);
            steps.push(step);
            if step == BatchStep::Finished {
                return steps;
            }
            outcome = self.perform(step);
        }
    }
}

fn day(y: i32, m: u32, d: u32) -> i32 {
    chrono::Datelike::num_days_from_ce(&chrono::NaiveDate::from_ymd_opt(y, m, d).unwrap())
}

#[test]
fn three_members_get_three_blank_records_once() {
    let mut store = Store::default();
    let today = day(2025, 1, 15);
    store.run_batch(&[1, 2, 3], today);
    assert_eq!(store.attendance.len(), 3);
    for m in [1, 2, 3] {
        let r = store.attendance[&(m, today)];
        assert!(!r.is_present);
        assert_eq!(r.time_in, None);
        assert_eq!(r.time_out, None);
    }
    assert_eq!(store.history.len(), 3);
    let before = store.attendance.clone();
    store.run_batch(&[1, 2, 3], today);
    assert_eq!(store.attendance, before);
}

#[test]
fn rerun_keeps_marked_records() {
    let mut store = Store::default();
    let today = day(2025, 1, 15);
    store.run_batch(&[1, 2], today);
    let r = store.attendance.get_mut(&(1, today)).unwrap();
    r.is_present = true;
    r.time_in = Some(32400);
    r.time_out = Some(36000);
    let marked = *r;
    store.run_batch(&[1, 2], today);
    assert_eq!(store.attendance[&(1, today)], marked);
    assert_eq!(store.attendance.len(), 2);
}

#[test]
fn present_yesterday_counts_absent_does_not() {
    let mut store = Store::default();
    let yesterday = day(2025, 3, 9);
    let today = day(2025, 3, 10);
    store.run_batch(&[10, 20], yesterday);
    store.attendance.get_mut(&(10, yesterday)).unwrap().is_present = true;
    store.run_batch(&[10, 20], today);
    assert_eq!(store.days_attended.get(&(10, 2025, 3)), Some(&1));
    assert_eq!(store.days_attended.get(&(20, 2025, 3)), None);

    let tomorrow = day(2025, 3, 11);
    store.attendance.get_mut(&(10, today)).unwrap().is_present = true;
    store.run_batch(&[10, 20], tomorrow);
    assert_eq!(store.days_attended.get(&(10, 2025, 3)), Some(&2));
    assert_eq!(store.days_attended.get(&(20, 2025, 3)), None);
}

#[test]
fn counter_uses_todays_month() {
    let mut store = Store::default();
    let yesterday = day(2025, 1, 31);
    store.run_batch(&[4], yesterday);
    store.attendance.get_mut(&(4, yesterday)).unwrap().is_present = true;
    store.run_batch(&[4], day(2025, 2, 1));
    assert_eq!(store.days_attended.get(&(4, 2025, 2)), Some(&1));
}

#[test]
fn failed_insert_does_not_stop_the_others() {
    let mut store = Store::default();
    store.fail_inserts_for = Some(2);
    let today = day(2025, 6, 1);
    let steps = store.run_batch(&[1, 2, 3], today);
    assert!(store.attendance.contains_key(&(1, today)));
    assert!(!store.attendance.contains_key(&(2, today)));
    assert!(store.attendance.contains_key(&(3, today)));
    assert!(steps.contains(&BatchStep::ReadPresence { member_id: 2, date: today - 1 }));
    assert_eq!(store.history.len(), 3);
}

#[test]
fn step_order_for_one_member() {
    let today = day(2025, 5, 20);
    let mut batch = DailyBatch::new(vec![9], today);
    assert_eq!(batch.next(StepOutcome::Done), BatchStep::InsertAttendance { member_id: 9, date: today });
    assert_eq!(batch.next(StepOutcome::Failed), BatchStep::ReadPresence { member_id: 9, date: today - 1 });
    assert_eq!(
        batch.next(StepOutcome::Presence(true)),
        BatchStep::ReadDaysAttended { member_id: 9, year: 2025, month: 5 }
    );
    assert_eq!(
        batch.next(StepOutcome::DaysAttended(Some(4))),
        BatchStep::IncrementDaysAttended { member_id: 9, year: 2025, month: 5 }
    );
    assert_eq!(batch.next(StepOutcome::Done), BatchStep::InsertStatusHistory { member_id: 9, date: today });
    assert_eq!(batch.next(StepOutcome::Done), BatchStep::Finished);
    assert_eq!(batch.next(StepOutcome::Done), BatchStep::Finished);
}

#[test]
fn failed_reads_skip_the_counter() {
    let today = day(2025, 5, 20);
    let mut batch = DailyBatch::new(vec![9, 10], today);
    batch.next(StepOutcome::Done);
    batch.next(StepOutcome::Done);
    assert_eq!(batch.next(StepOutcome::Failed), BatchStep::InsertAttendance { member_id: 10, date: today });
    batch.next(StepOutcome::Done);
    assert_eq!(
        batch.next(StepOutcome::Presence(true)),
        BatchStep::ReadDaysAttended { member_id: 10, year: 2025, month: 5 }
    );
    assert_eq!(
        batch.next(StepOutcome::DaysAttended(None)),
        BatchStep::CreateDaysAttended { member_id: 10, year: 2025, month: 5 }
    );
}

#[test]
fn empty_member_list_finishes_at_once() {
    let mut batch = DailyBatch::new(Vec::new(), day(2025, 1, 1));
    assert_eq!(batch.next(StepOutcome::Done), BatchStep::Finished);
}

#[test]
fn counter_month_known_at_calendar_ends() {
    let mut first = DailyBatch::new(vec![1], 1);
    first.next(StepOutcome::Done);
    first.next(StepOutcome::Done);
    assert_eq!(first.next(StepOutcome::Presence(true)), BatchStep::ReadDaysAttended { member_id: 1, year: 1, month: 1 });
    let mut last = DailyBatch::new(vec![1], 3652059);
    last.next(StepOutcome::Done);
    last.next(StepOutcome::Done);
    assert_eq!(last.next(StepOutcome::Presence(true)), BatchStep::ReadDaysAttended { member_id: 1, year: 9999, month: 12 });
}
