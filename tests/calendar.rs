use root::calendar::{kolkata_today, local_time_at, next_boundary, next_kolkata_run, LocalTime, NextRun};

#[test]
fn last_second_of_day_runs_at_next_midnight() {
    let now = LocalTime { day: 20000, second: 86399 };
    assert_eq!(next_boundary(now, 0), NextRun { day: 20001, delay: 1 });
}

#[test]
fn last_second_of_day_with_offset_boundary() {
    let now = LocalTime { day: 20000, second: 86399 };
    assert_eq!(next_boundary(now, 1800), NextRun { day: 20001, delay: 1801 });
}

#[test]
fn just_past_midnight_waits_for_next_day() {
    let now = LocalTime { day: 20000, second: 1 };
    assert_eq!(next_boundary(now, 0), NextRun { day: 20001, delay: 86399 });
}

#[test]
fn exactly_at_boundary_waits_a_full_day() {
    let now = LocalTime { day: 5, second: 1800 };
    assert_eq!(next_boundary(now, 1800), NextRun { day: 6, delay: 86400 });
}

#[test]
fn before_boundary_runs_today() {
    let now = LocalTime { day: 5, second: 600 };
    assert_eq!(next_boundary(now, 1800), NextRun { day: 5, delay: 1200 });
}

#[test]
fn local_time_before_epoch_rounds_down() {
    assert_eq!(local_time_at(-1, 0), Some(LocalTime { day: -1, second: 86399 }));
    assert_eq!(local_time_at(i64::MAX, 1), None);
}

#[test]
fn kolkata_is_five_and_a_half_hours_ahead() {
    // 1970-01-01 00:00 UTC is 05:30 in Kolkata; the 00:30 run is the next day.
    assert_eq!(next_kolkata_run(0, 1800), Some(NextRun { day: 1, delay: 68400 }));
    // 2024-03-10 18:29:59 UTC is 23:59:59 in Kolkata.
    let utc = 1710095399;
    let run = next_kolkata_run(utc, 0).unwrap();
    assert_eq!(run.delay, 1);
}

#[test]
fn kolkata_today_counts_days_from_common_era() {
    assert_eq!(kolkata_today(0), Some(719163));
    // 2024-03-10 18:30:00 UTC is already 2024-03-11 in Kolkata.
    let d = chrono::NaiveDate::from_ymd_opt(2024, 3, 11).unwrap();
    assert_eq!(kolkata_today(1710095400), Some(chrono::Datelike::num_days_from_ce(&d)));
}

#[test]
fn kolkata_wall_clock() {
    assert_eq!(root::calendar::kolkata_now(0), Some(LocalTime { day: 0, second: 19800 }));
    assert_eq!(root::calendar::kolkata_now(-19800), Some(LocalTime { day: 0, second: 0 }));
}

#[test]
fn clock_works_across_its_range() {
    assert!(next_kolkata_run(1099511627776, 0).is_some());
    assert!(next_kolkata_run(-1099511627776, 0).is_some());
    assert!(kolkata_today(1099511627776).is_some());
    assert!(root::calendar::kolkata_now(-1099511627776).is_some());
}
