use addon_booking::civil::Civil;
use addon_booking::slots::generate_slots;

fn civil(year: i32, month: u8, day: u8, hour: u8, minute: u8, second: u8) -> Civil {
    Civil { year, month, day, hour, minute, second }
}

const DAY: Civil = Civil { year: 2024, month: 12, day: 6, hour: 0, minute: 0, second: 0 };

#[test]
fn working_window_yields_hourly_slots() {
    // Local window 10:00:00-18:00:00, 45-minute slots, 15-minute breaks:
    // eight slots at 10:00, 11:00, ..., 17:00, each 45 minutes long.
    let slots = generate_slots(&DAY, 36000, 64800, 45, 15, &Vec::new());
    assert_eq!(slots.len(), 8);
    for (k, slot) in slots.iter().enumerate() {
        assert_eq!(slot.start, civil(2024, 12, 6, 10 + k as u8, 0, 0));
        assert_eq!(slot.end, civil(2024, 12, 6, 10 + k as u8, 45, 0));
        assert!(!slot.booked);
    }
}

#[test]
fn booking_at_eleven_marks_that_slot_alone() {
    let booked = vec![civil(2024, 12, 6, 11, 0, 0)];
    let slots = generate_slots(&DAY, 36000, 64800, 45, 15, &booked);
    assert_eq!(slots.len(), 8);
    for (k, slot) in slots.iter().enumerate() {
        assert_eq!(slot.booked, k == 1);
    }
}

#[test]
fn booking_on_slot_boundary_counts_as_occupying() {
    // A booking exactly at a slot's start, and one exactly at a slot's
    // duration end, both occupy that slot.
    let at_start = vec![civil(2024, 12, 6, 10, 0, 0)];
    let slots = generate_slots(&DAY, 36000, 64800, 45, 15, &at_start);
    assert!(slots[0].booked);
    let at_end = vec![civil(2024, 12, 6, 10, 45, 0)];
    let slots = generate_slots(&DAY, 36000, 64800, 45, 15, &at_end);
    assert!(slots[0].booked);
    assert!(!slots[1].booked);
    let in_break = vec![civil(2024, 12, 6, 10, 46, 0)];
    let slots = generate_slots(&DAY, 36000, 64800, 45, 15, &in_break);
    assert!(slots.iter().all(|s| !s.booked));
}

#[test]
fn even_division_fills_the_window_exactly() {
    // 10:00-12:00 with a 60-minute span: the last slot's span ends at the
    // window end.
    let slots = generate_slots(&DAY, 36000, 43200, 45, 15, &Vec::new());
    assert_eq!(slots.len(), 2);
    assert_eq!(slots[1].start, civil(2024, 12, 6, 11, 0, 0));
    assert_eq!(slots[1].end, civil(2024, 12, 6, 11, 45, 0));
}

#[test]
fn partial_remainder_yields_no_slot() {
    // 10:00-11:30 with a 60-minute span: one slot; the half-hour remainder
    // produces nothing, and no slot extends past the window end.
    let slots = generate_slots(&DAY, 36000, 41400, 45, 15, &Vec::new());
    assert_eq!(slots.len(), 1);
    assert_eq!(slots[0].start, civil(2024, 12, 6, 10, 0, 0));
    assert_eq!(slots[0].end, civil(2024, 12, 6, 10, 45, 0));
}

#[test]
fn window_too_small_for_one_span_is_empty_not_an_error() {
    let slots = generate_slots(&DAY, 36000, 37800, 45, 15, &Vec::new());
    assert_eq!(slots.len(), 0);
}

#[test]
fn zero_break_slots_abut() {
    let slots = generate_slots(&DAY, 36000, 43200, 60, 0, &Vec::new());
    assert_eq!(slots.len(), 2);
    assert_eq!(slots[0].end, civil(2024, 12, 6, 11, 0, 0));
    assert_eq!(slots[1].start, civil(2024, 12, 6, 11, 0, 0));
}
