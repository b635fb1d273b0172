use addon_booking::error::{Error, ErrorClass};
use addon_booking::reservation::{LockKey, LockTable};
use addon_booking::rows::{Field, FieldValue, Row};
use addon_booking::service::{
    abort_reservation, begin_reservation, commit_reservation, ReservationRequest,
};

fn text(name: &str, value: &str) -> Field {
    Field { name: String::from(name), value: FieldValue::Text(String::from(value)) }
}

fn number(name: &str, value: i64) -> Field {
    Field { name: String::from(name), value: FieldValue::Number(value) }
}

fn schedule_row() -> Row {
    Row {
        fields: vec![
            text("id", "sched-1"),
            text("service", "svc-1"),
            number("duration", 45),
            number("break", 15),
        ],
    }
}

fn staff_row() -> Row {
    Row {
        fields: vec![
            text("id", "staffsched-1"),
            text("schedule", "sched-1"),
            text("staff", "staff-1"),
            text("timeZone", "America/Los_Angeles"),
            number("timeZoneOffsetSeconds", -28800),
            text("startDay", "2024-12-02"),
            text("start", "10:00:00.0"),
            text("end", "18:00:00.0"),
            text("frequency", "WEEKLY"),
        ],
    }
}

fn request(time: &str, key: &str) -> ReservationRequest {
    ReservationRequest {
        staff_schedule_id: String::from("staffsched-1"),
        schedule_id: String::from("sched-1"),
        service_id: String::from("svc-1"),
        staff_id: String::from("staff-1"),
        year: 2024,
        month: 12,
        day: 6,
        time: String::from(time),
        client_key: String::from(key),
    }
}

#[test]
fn begin_claims_a_free_slot() {
    let mut table = LockTable::new();
    let r = begin_reservation(
        &mut table,
        &request("11:00:00", "client-a"),
        &schedule_row(),
        &staff_row(),
        &Vec::new(),
    );
    assert_eq!(r, Ok(()));
    let key = LockKey { schedule_id: String::from("sched-1"), day: 6, month: 12, year: 2024 };
    assert!(table.contains(&key));
}

#[test]
fn second_begin_for_the_same_key_is_a_conflict() {
    // Of two begin attempts for the same schedule and day, exactly one
    // succeeds; the loser sees a distinct conflict error.
    let mut table = LockTable::new();
    let first = begin_reservation(
        &mut table,
        &request("11:00:00", "client-a"),
        &schedule_row(),
        &staff_row(),
        &Vec::new(),
    );
    let second = begin_reservation(
        &mut table,
        &request("12:00:00", "client-b"),
        &schedule_row(),
        &staff_row(),
        &Vec::new(),
    );
    assert_eq!(first, Ok(()));
    assert_eq!(second, Err(Error::ReservationInFlight));
    assert_eq!(Error::ReservationInFlight.class(), ErrorClass::Conflict);
}

#[test]
fn begin_validates_referential_consistency() {
    let mut table = LockTable::new();
    let mut req = request("11:00:00", "client-a");
    req.service_id = String::from("svc-other");
    let r = begin_reservation(&mut table, &req, &schedule_row(), &staff_row(), &Vec::new());
    assert_eq!(r, Err(Error::ServiceMismatch));

    let mut req = request("11:00:00", "client-a");
    req.schedule_id = String::from("sched-other");
    let r = begin_reservation(&mut table, &req, &schedule_row(), &staff_row(), &Vec::new());
    assert_eq!(r, Err(Error::ScheduleMismatch));

    let mut req = request("11:00:00", "client-a");
    req.staff_id = String::from("staff-other");
    let r = begin_reservation(&mut table, &req, &schedule_row(), &staff_row(), &Vec::new());
    assert_eq!(r, Err(Error::StaffMismatch));
}

#[test]
fn begin_rejects_a_time_that_is_no_slot() {
    let mut table = LockTable::new();
    let r = begin_reservation(
        &mut table,
        &request("11:30:00", "client-a"),
        &schedule_row(),
        &staff_row(),
        &Vec::new(),
    );
    assert_eq!(r, Err(Error::SlotNotFound));
    let key = LockKey { schedule_id: String::from("sched-1"), day: 6, month: 12, year: 2024 };
    assert!(!table.contains(&key));
}

#[test]
fn begin_rejects_a_booked_slot() {
    let mut table = LockTable::new();
    let booking = Row {
        fields: vec![text("bookDate", "2024-12-06 11:00:00.0 +00:00:00")],
    };
    let r = begin_reservation(
        &mut table,
        &request("11:00:00", "client-a"),
        &schedule_row(),
        &staff_row(),
        &vec![booking],
    );
    assert_eq!(r, Err(Error::SlotBooked));
    assert_eq!(Error::SlotBooked.class(), ErrorClass::Conflict);
}

#[test]
fn commit_with_matching_token_books_and_releases() {
    let mut table = LockTable::new();
    let req = request("11:00:00", "client-a");
    begin_reservation(&mut table, &req, &schedule_row(), &staff_row(), &Vec::new()).unwrap();
    let booking = commit_reservation(
        &mut table,
        &req,
        String::from("contact-1"),
        String::from("data-1"),
        &schedule_row(),
    )
    .unwrap();
    assert_eq!(booking.book_date.day, 6);
    assert_eq!((booking.book_date.hour, booking.book_date.minute), (11, 0));
    assert_eq!(booking.duration_minutes, 45);
    assert_eq!(booking.service_id, "svc-1");
    assert_eq!(booking.staff_id, "staff-1");
    assert_eq!(booking.contact_id, "contact-1");
    let key = LockKey { schedule_id: String::from("sched-1"), day: 6, month: 12, year: 2024 };
    assert!(!table.contains(&key));
}

#[test]
fn commit_with_wrong_token_is_refused_and_writes_nothing() {
    // A commit whose token does not match the one stored on begin fails
    // with a token-mismatch conflict and produces no booking; the stored
    // reservation stays in place, so the rightful holder can still commit.
    let mut table = LockTable::new();
    begin_reservation(
        &mut table,
        &request("11:00:00", "client-a"),
        &schedule_row(),
        &staff_row(),
        &Vec::new(),
    )
    .unwrap();
    let stale = commit_reservation(
        &mut table,
        &request("11:00:00", "client-b"),
        String::from("contact-1"),
        String::from("data-1"),
        &schedule_row(),
    );
    assert!(matches!(stale, Err(Error::TokenMismatch)));
    assert_eq!(Error::TokenMismatch.class(), ErrorClass::Conflict);
    let rightful = commit_reservation(
        &mut table,
        &request("11:00:00", "client-a"),
        String::from("contact-1"),
        String::from("data-1"),
        &schedule_row(),
    );
    assert!(rightful.is_ok());
}

#[test]
fn commit_without_a_pending_reservation_is_missing_state() {
    let mut table = LockTable::new();
    let r = commit_reservation(
        &mut table,
        &request("11:00:00", "client-a"),
        String::from("contact-1"),
        String::from("data-1"),
        &schedule_row(),
    );
    assert!(matches!(r, Err(Error::ReservationMissing)));
    assert_eq!(Error::ReservationMissing.class(), ErrorClass::NotFound);
}

#[test]
fn abort_twice_is_a_no_op_both_times() {
    // Aborting releases the key; a second abort of the same key changes
    // nothing and raises no error.
    let mut table = LockTable::new();
    let req = request("11:00:00", "client-a");
    begin_reservation(&mut table, &req, &schedule_row(), &staff_row(), &Vec::new()).unwrap();
    let key = LockKey { schedule_id: String::from("sched-1"), day: 6, month: 12, year: 2024 };
    abort_reservation(&mut table, &req);
    assert!(!table.contains(&key));
    abort_reservation(&mut table, &req);
    assert!(!table.contains(&key));
    // The key is free again: a new begin succeeds.
    let r = begin_reservation(&mut table, &req, &schedule_row(), &staff_row(), &Vec::new());
    assert_eq!(r, Ok(()));
}

#[test]
fn lock_table_maps_each_key_at_most_once() {
    let mut table = LockTable::new();
    let key = LockKey { schedule_id: String::from("s"), day: 1, month: 2, year: 2024 };
    let key2 = LockKey { schedule_id: String::from("s"), day: 1, month: 2, year: 2024 };
    assert!(table.try_insert(key, String::from("a")));
    assert!(!table.try_insert(key2, String::from("b")));
    let key_again = LockKey { schedule_id: String::from("s"), day: 1, month: 2, year: 2024 };
    assert_eq!(table.remove(&key_again), Some(String::from("a")));
    assert_eq!(table.remove(&key_again), None);
}

#[test]
fn parallel_begins_for_one_key_leave_exactly_one_holder() {
    // Two begin attempts race for the same schedule and day, each from its
    // own task, with the table behind one mutex: exactly one succeeds and
    // the loser sees the in-flight conflict.
    let rt = tokio::runtime::Builder::new_multi_thread()
        .worker_threads(2)
        .build()
        .unwrap();
    rt.block_on(async {
        let table = std::sync::Arc::new(tokio::sync::Mutex::new(LockTable::new()));
        let mut handles = Vec::new();
        for (time, key) in [("11:00:00", "client-a"), ("12:00:00", "client-b")] {
            let table = table.clone();
            handles.push(tokio::spawn(async move {
                let req = request(time, key);
                let mut locks = table.lock().await;
                begin_reservation(&mut locks, &req, &schedule_row(), &staff_row(), &Vec::new())
            }));
        }
        let mut oks = 0;
        let mut conflicts = 0;
        for handle in handles {
            match handle.await.unwrap() {
                Ok(()) => oks += 1,
                Err(Error::ReservationInFlight) => conflicts += 1,
                Err(other) => panic!("unexpected refusal: {other:?}"),
            }
        }
        assert_eq!(oks, 1);
        assert_eq!(conflicts, 1);
    });
}
