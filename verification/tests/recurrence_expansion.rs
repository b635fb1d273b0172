use addon_booking::civil::{unix_to_civil, Civil};
use addon_booking::error::Error;
use addon_booking::recurrence::{expand_occurrences, Frequency};

fn civil(year: i32, month: u8, day: u8, hour: u8, minute: u8, second: u8) -> Civil {
    Civil { year, month, day, hour, minute, second }
}

const LOS_ANGELES: i32 = -28800;

#[test]
fn weekly_from_december_second_hits_the_five_week_cap() {
    // Weekly recurrence anchored 2024-12-02 (a Monday), queried for
    // December 2024: occurrences on Dec 2, 9, 16, 23 and 30 — five
    // results, hitting the cap.
    let start = civil(2024, 12, 2, 10, 0, 0);
    let occs = expand_occurrences(&start, LOS_ANGELES, &Frequency::Weekly, 2024, 12).unwrap();
    assert_eq!(occs, vec![1733162400, 1733767200, 1734372000, 1734976800, 1735581600]);
    let days: Vec<u8> = occs
        .iter()
        .map(|o| unix_to_civil(*o, LOS_ANGELES).unwrap().day)
        .collect();
    assert_eq!(days, vec![2, 9, 16, 23, 30]);
    for o in occs {
        let local = unix_to_civil(o, LOS_ANGELES).unwrap();
        assert_eq!(local.year, 2024);
        assert_eq!(local.month, 12);
        assert_eq!((local.hour, local.minute, local.second), (10, 0, 0));
    }
}

#[test]
fn anchor_far_in_the_past_still_lands_in_the_month() {
    // The walk starts at the anchor and steps forward week by week until
    // it reaches the requested month.
    let start = civil(2023, 1, 2, 9, 0, 0);
    let occs = expand_occurrences(&start, 0, &Frequency::Weekly, 2024, 12).unwrap();
    assert_eq!(occs.len(), 5);
    let days: Vec<u8> = occs.iter().map(|o| unix_to_civil(*o, 0).unwrap().day).collect();
    assert_eq!(days, vec![2, 9, 16, 23, 30]);
}

#[test]
fn month_before_the_anchor_yields_nothing() {
    let start = civil(2024, 12, 2, 10, 0, 0);
    let occs = expand_occurrences(&start, 0, &Frequency::Weekly, 2024, 6).unwrap();
    assert!(occs.is_empty());
}

#[test]
fn daily_fills_the_month_up_to_the_cap() {
    let start = civil(2024, 11, 28, 8, 0, 0);
    let occs = expand_occurrences(&start, 0, &Frequency::Daily, 2024, 12).unwrap();
    assert_eq!(occs.len(), 5);
    let days: Vec<u8> = occs.iter().map(|o| unix_to_civil(*o, 0).unwrap().day).collect();
    assert_eq!(days, vec![1, 2, 3, 4, 5]);
}

#[test]
fn monthly_steps_twenty_eight_days() {
    // The monthly step is the documented 28-day approximation, not true
    // calendar-month arithmetic.
    let start = civil(2024, 10, 7, 12, 0, 0);
    let occs = expand_occurrences(&start, 0, &Frequency::Monthly, 2024, 12).unwrap();
    assert_eq!(occs.len(), 2);
    let days: Vec<u8> = occs.iter().map(|o| unix_to_civil(*o, 0).unwrap().day).collect();
    assert_eq!(days, vec![2, 30]);
}

#[test]
fn occurrences_are_strictly_increasing() {
    let start = civil(2020, 1, 1, 0, 0, 0);
    let occs = expand_occurrences(&start, 7200, &Frequency::Weekly, 2024, 2).unwrap();
    for pair in occs.windows(2) {
        assert!(pair[0] < pair[1]);
    }
}

#[test]
fn walk_past_the_supported_calendar_range_is_reported() {
    let start = civil(9999, 12, 31, 10, 0, 0);
    let r = expand_occurrences(&start, 0, &Frequency::Weekly, 9999, 12);
    assert_eq!(r, Err(Error::TimeOutOfRange));
}
