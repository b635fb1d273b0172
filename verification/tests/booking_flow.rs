use addon_booking::error::{Error, ErrorClass};
use addon_booking::render::format_store_datetime;
use addon_booking::reservation::LockTable;
use addon_booking::rows::{Field, FieldValue, Row};
use addon_booking::service::{
    begin_reservation, commit_reservation, gather_available_days, gather_available_hours,
    ReservationRequest,
};

fn text(name: &str, value: &str) -> Field {
    Field { name: String::from(name), value: FieldValue::Text(String::from(value)) }
}

fn number(name: &str, value: i64) -> Field {
    Field { name: String::from(name), value: FieldValue::Number(value) }
}

fn schedule_row() -> Row {
    Row {
        fields: vec![
            text("id", "sched-1"),
            text("service", "svc-1"),
            number("duration", 45),
            number("break", 15),
        ],
    }
}

fn staff_row() -> Row {
    Row {
        fields: vec![
            text("id", "staffsched-1"),
            text("schedule", "sched-1"),
            text("staff", "staff-1"),
            text("timeZone", "America/Los_Angeles"),
            number("timeZoneOffsetSeconds", -28800),
            text("startDay", "2024-12-02"),
            text("start", "10:00:00.0"),
            text("end", "18:00:00.0"),
            text("frequency", "WEEKLY"),
        ],
    }
}

#[test]
fn available_slot_booked_end_to_end_shows_up_booked() {
    // A slot listed as available, taken through begin and commit with
    // matching identifiers, yields a booking row whose stored instant
    // makes the same slot report booked on the next listing.
    let hours =
        gather_available_hours(2024, 12, 6, &schedule_row(), &staff_row(), &Vec::new()).unwrap();
    assert_eq!(hours.len(), 8);
    let chosen = &hours[1];
    assert!(!chosen.slot.booked);
    assert_eq!((chosen.slot.start.hour, chosen.slot.start.minute), (11, 0));
    assert_eq!(chosen.service_id, "svc-1");

    let req = ReservationRequest {
        staff_schedule_id: chosen.staff_schedule_id.clone(),
        schedule_id: chosen.schedule_id.clone(),
        service_id: chosen.service_id.clone(),
        staff_id: chosen.staff_id.clone(),
        year: 2024,
        month: 12,
        day: 6,
        time: String::from("11:00:00"),
        client_key: String::from("client-a"),
    };
    let mut table = LockTable::new();
    begin_reservation(&mut table, &req, &schedule_row(), &staff_row(), &Vec::new()).unwrap();
    let booking = commit_reservation(
        &mut table,
        &req,
        String::from("contact-1"),
        String::from("data-1"),
        &schedule_row(),
    )
    .unwrap();

    // The caller persists the booking as a row; its stored text is the
    // formatted book instant.
    let stored = Row {
        fields: vec![text("bookDate", &format_store_datetime(&booking.book_date))],
    };
    let hours =
        gather_available_hours(2024, 12, 6, &schedule_row(), &staff_row(), &vec![stored]).unwrap();
    for (k, h) in hours.iter().enumerate() {
        assert_eq!(h.slot.booked, k == 1);
    }
}

#[test]
fn day_listing_shows_december_mondays() {
    let days = gather_available_days(2024, 12, &vec![staff_row()]).unwrap();
    assert_eq!(days.len(), 5);
    let local_days: Vec<u8> = days.iter().map(|d| d.local_start.day).collect();
    assert_eq!(local_days, vec![2, 9, 16, 23, 30]);
    for d in &days {
        assert_eq!(d.staff_schedule_id, "staffsched-1");
        assert_eq!(d.time_zone, "America/Los_Angeles");
        assert_eq!((d.local_start.hour, d.local_start.minute), (10, 0));
        assert_eq!((d.local_end.hour, d.local_end.minute), (18, 0));
        assert_eq!(d.utc_start.hour, 18);
        assert_eq!(d.local_start.month, 12);
        assert_eq!(d.local_start.year, 2024);
    }
    assert_eq!(days[0].start_unix, 1733162400);
}

#[test]
fn day_listing_propagates_row_errors() {
    let mut row = staff_row();
    row.fields.retain(|f| f.name != "timeZoneOffsetSeconds");
    let r = gather_available_days(2024, 12, &vec![row]);
    assert_eq!(r.err().map(|e| e), Some(Error::UnknownTimeZone));
    assert_eq!(Error::UnknownTimeZone.class(), ErrorClass::Validation);

    let mut row = staff_row();
    row.fields.retain(|f| f.name != "startDay");
    let r = gather_available_days(2024, 12, &vec![row]);
    assert_eq!(r.err().map(|e| e), Some(Error::MissingField));
    assert_eq!(Error::MissingField.class(), ErrorClass::NotFound);

    let mut row = staff_row();
    for f in row.fields.iter_mut() {
        if f.name == "frequency" {
            f.value = FieldValue::Text(String::from("FORTNIGHTLY"));
        }
    }
    let r = gather_available_days(2024, 12, &vec![row]);
    assert_eq!(r.err().map(|e| e), Some(Error::InvalidFrequency));
}

#[test]
fn hour_listing_validates_the_requested_day() {
    let r = gather_available_hours(2024, 13, 6, &schedule_row(), &staff_row(), &Vec::new());
    assert!(matches!(r, Err(Error::InvalidDate)));
    let r = gather_available_hours(2024, 2, 30, &schedule_row(), &staff_row(), &Vec::new());
    assert!(matches!(r, Err(Error::InvalidDate)));
}

#[test]
fn hour_listing_rejects_wrongly_typed_fields() {
    let row = Row {
        fields: vec![
            text("id", "sched-1"),
            text("service", "svc-1"),
            text("duration", "45"),
            number("break", 15),
        ],
    };
    let r = gather_available_hours(2024, 12, 6, &row, &staff_row(), &Vec::new());
    assert!(matches!(r, Err(Error::FieldTypeMismatch)));
    assert_eq!(Error::FieldTypeMismatch.class(), ErrorClass::Upstream);

    let row = Row {
        fields: vec![
            text("id", "sched-1"),
            text("service", "svc-1"),
            number("duration", 0),
            number("break", 15),
        ],
    };
    let r = gather_available_hours(2024, 12, 6, &row, &staff_row(), &Vec::new());
    assert!(matches!(r, Err(Error::InvalidDuration)));
}

#[test]
fn malformed_stored_booking_is_an_upstream_error() {
    let stored = Row { fields: vec![text("bookDate", "last tuesday")] };
    let r = gather_available_hours(2024, 12, 6, &schedule_row(), &staff_row(), &vec![stored]);
    assert!(matches!(r, Err(Error::MalformedBookDate)));
}
