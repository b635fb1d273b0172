//! The availability service: composition of the computation components
//! against rows fetched from the external store.
//!
//! The functions here own no I/O: the caller fetches the schedule,
//! staff-schedule and booking rows, resolves time zones, and guards the
//! lock table with one mutual-exclusion primitive; these functions
//! validate the rows once at this boundary, run the recurrence expander
//! and slot generator, and drive the reservation protocol. Each function's
//! contract pins the result, and the error precedence, to a specification
//! function over the raw inputs.

use vstd::prelude::*;
use vstd::arithmetic::mul::lemma_mul_strict_inequality;

use crate::civil::{
    civil_fields, civil_of, civil_to_unix, days_in_month, lemma_with_tod_injective, unix_of,
    unix_to_civil, valid_civil, with_tod, set_tod, Civil, OFFSET_MAX, UNIX_MAX, UNIX_MIN,
};
use crate::error::Error;
use crate::recurrence::{expand_occurrences, expand_walk, step_days};
use crate::reservation::{abort_model, KeyView, LockKey, LockTable};
use crate::rows::{
    booked_from_rows, schedule_from_row, spec_booked_list, spec_schedule_of_row,
    spec_staff_of_row, spec_tod_ok, spec_tod_value, staff_schedule_from_row, Row,
    StaffScheduleRecord,
};
use crate::slots::{generate_slots, slot_count, slot_step, spec_slot, Slot};

verus! {

/// One bookable slot of the hour-granularity listing, with the identities
/// a client needs to reserve it.
#[derive(Debug, Clone)]
pub struct HourSlot {
    pub slot: Slot,
    pub service_id: String,
    pub schedule_id: String,
    pub staff_id: String,
    pub staff_schedule_id: String,
}

/// The requested listing day exists on the calendar.
pub open spec fn spec_date_ok(year: int, month: int, day: int) -> bool {
    &&& 0 <= year <= 9999
    &&& 1 <= month <= 12
    &&& 1 <= day <= days_in_month(year, month)
}

/// The requested listing day as a civil value, at midnight.
pub open spec fn spec_date_civil(year: int, month: int, day: int) -> Civil {
    Civil {
        year: year as i32,
        month: month as u8,
        day: day as u8,
        hour: 0,
        minute: 0,
        second: 0,
    }
}

/// The hour-granularity listing over the raw inputs: the slots of the
/// schedule's working window on the requested day, or the first error of
/// reading the schedule row, the staff-schedule row, the requested day and
/// the booking rows, in that order.
pub open spec fn spec_hours_result(
    sf: Seq<crate::rows::Field>,
    stf: Seq<crate::rows::Field>,
    brows: Seq<Row>,
    year: int,
    month: int,
    day: int,
) -> Result<Seq<Slot>, Error> {
    match spec_schedule_of_row(sf) {
        Err(e) => Err(e),
        Ok(sch) => match spec_staff_of_row(stf) {
            Err(e) => Err(e),
            Ok(st) => if !spec_date_ok(year, month, day) {
                Err(Error::InvalidDate)
            } else {
                match spec_booked_list(brows) {
                    Err(e) => Err(e),
                    Ok(bks) => Ok(
                        Seq::new(
                            slot_count(st.start_tod, st.end_tod, sch.2, sch.3) as nat,
                            |k: int|
                                spec_slot(
                                    spec_date_civil(year, month, day),
                                    st.start_tod,
                                    k,
                                    sch.2,
                                    sch.3,
                                    bks,
                                ),
                        ),
                    ),
                }
            },
        },
    }
}

/// Check that the requested day exists on the calendar.
fn check_date(year: u32, month: u8, day: u8) -> (r: bool)
    ensures
        r == spec_date_ok(year as int, month as int, day as int),
{
    year <= 9999 && 1 <= month && month <= 12 && 1 <= day && day <= crate::civil::month_length(
        year as i32,
        month,
    )
}

/// List the schedule's bookable slots on one day, each flagged if an
/// existing booking occupies it and carrying the identities of the
/// service, schedule, staff member and staff schedule it belongs to.
pub fn gather_available_hours(
    year: u32,
    month: u8,
    day: u8,
    schedule_row: &Row,
    staff_row: &Row,
    booking_rows: &Vec<Row>,
) -> (r: Result<Vec<HourSlot>, Error>)
    ensures
        r is Ok <==> spec_hours_result(
            schedule_row.fields@,
            staff_row.fields@,
            booking_rows@,
            year as int,
            month as int,
            day as int,
        ) is Ok,
        r matches Err(e) ==> spec_hours_result(
            schedule_row.fields@,
            staff_row.fields@,
            booking_rows@,
            year as int,
            month as int,
            day as int,
        ) == Err::<Seq<Slot>, Error>(e),
        r matches Ok(v) ==> ({
            let spec = spec_hours_result(
                schedule_row.fields@,
                staff_row.fields@,
                booking_rows@,
                year as int,
                month as int,
                day as int,
            );
            let sch = spec_schedule_of_row(schedule_row.fields@)->Ok_0;
            let st = spec_staff_of_row(staff_row.fields@)->Ok_0;
            &&& v@.len() == spec->Ok_0.len()
            &&& forall|k: int| 0 <= k < v@.len() ==> (#[trigger] v@[k]).slot == spec->Ok_0[k]
            &&& forall|k: int|
                0 <= k < v@.len() ==> (#[trigger] v@[k]).service_id@ == sch.1 && v@[k].schedule_id@
                    == sch.0 && v@[k].staff_id@ == st.staff_id && v@[k].staff_schedule_id@ == st.id
        }),
{
    let schedule = match schedule_from_row(schedule_row) {
        Ok(v) => v,
        Err(e) => return Err(e),
    };
    let staff = match staff_schedule_from_row(staff_row) {
        Ok(v) => v,
        Err(e) => return Err(e),
    };
    if !check_date(year, month, day) {
        return Err(Error::InvalidDate);
    }
    let booked = match booked_from_rows(booking_rows) {
        Ok(v) => v,
        Err(e) => return Err(e),
    };
    let date = Civil { year: year as i32, month, day, hour: 0, minute: 0, second: 0 };
    let slots = generate_slots(
        &date,
        staff.start_tod,
        staff.end_tod,
        schedule.duration_minutes,
        schedule.break_minutes,
        &booked,
    );
    let n = slots.len();
    let mut out: Vec<HourSlot> = Vec::new();
    let mut i: usize = 0;
    while i < n
        invariant
            0 <= i <= n == slots@.len(),
            out@.len() == i,
            forall|k: int| 0 <= k < i ==> (#[trigger] out@[k]).slot == slots@[k],
            forall|k: int|
                0 <= k < i ==> (#[trigger] out@[k]).service_id@ == schedule.service_id@
                    && out@[k].schedule_id@ == schedule.id@ && out@[k].staff_id@ == staff.staff_id@
                    && out@[k].staff_schedule_id@ == staff.id@,
        decreases n - i,
    {
        out.push(
            HourSlot {
                slot: slots[i],
                service_id: schedule.service_id.clone(),
                schedule_id: schedule.id.clone(),
                staff_id: staff.staff_id.clone(),
                staff_schedule_id: staff.id.clone(),
            },
        );
        i = i + 1;
    }
    Ok(out)
}

/// What a client supplies to begin or commit a reservation: the
/// identities of the slot it wants, the day and wall-clock time, and its
/// opaque token.
#[derive(Debug, Clone)]
pub struct ReservationRequest {
    pub staff_schedule_id: String,
    pub schedule_id: String,
    pub service_id: String,
    pub staff_id: String,
    pub year: u32,
    pub month: u8,
    pub day: u8,
    pub time: String,
    pub client_key: String,
}

/// The lock-table key a request contends for: its schedule on its day.
pub open spec fn spec_request_key(req: ReservationRequest) -> KeyView {
    (req.schedule_id@, req.day as int, req.month as int, req.year as int)
}

/// Build the lock key of a request.
fn request_key(req: &ReservationRequest) -> (r: LockKey)
    ensures
        r@ == spec_request_key(*req),
{
    LockKey {
        schedule_id: req.schedule_id.clone(),
        day: req.day,
        month: req.month,
        year: req.year,
    }
}

/// Why `begin` refuses a reservation, if it does. The checks run in this
/// order: the schedule row, the staff-schedule row, the three referential
/// matches, a reservation already in flight, the requested day, the
/// booking rows, the requested time, the requested slot's existence, and
/// the slot being free.
pub open spec fn spec_begin_err(
    in_flight: bool,
    sf: Seq<crate::rows::Field>,
    stf: Seq<crate::rows::Field>,
    brows: Seq<Row>,
    req: ReservationRequest,
) -> Option<Error> {
    match spec_schedule_of_row(sf) {
        Err(e) => Some(e),
        Ok(sch) => match spec_staff_of_row(stf) {
            Err(e) => Some(e),
            Ok(st) => if sch.1 != req.service_id@ {
                Some(Error::ServiceMismatch)
            } else if st.schedule_id != req.schedule_id@ {
                Some(Error::ScheduleMismatch)
            } else if st.staff_id != req.staff_id@ {
                Some(Error::StaffMismatch)
            } else if in_flight {
                Some(Error::ReservationInFlight)
            } else if !spec_date_ok(req.year as int, req.month as int, req.day as int) {
                Some(Error::InvalidDate)
            } else {
                match spec_booked_list(brows) {
                    Err(e) => Some(e),
                    Ok(bks) => if !spec_tod_ok(req.time@) {
                        Some(Error::InvalidTime)
                    } else {
                        let date = spec_date_civil(req.year as int, req.month as int, req.day as int);
                        let want = with_tod(date, spec_tod_value(req.time@));
                        let n = slot_count(st.start_tod, st.end_tod, sch.2, sch.3);
                        if !(exists|k: int|
                            0 <= k < n && (#[trigger] spec_slot(
                                date,
                                st.start_tod,
                                k,
                                sch.2,
                                sch.3,
                                bks,
                            )).start == want) {
                            Some(Error::SlotNotFound)
                        } else if exists|k: int|
                            0 <= k < n && (#[trigger] spec_slot(
                                date,
                                st.start_tod,
                                k,
                                sch.2,
                                sch.3,
                                bks,
                            )).start == want && spec_slot(
                            date,
                            st.start_tod,
                            k,
                            sch.2,
                            sch.3,
                            bks,
                        ).booked {
                            Some(Error::SlotBooked)
                        } else {
                            None
                        }
                    },
                }
            },
        },
    }
}

/// The first generated slot that starts at the wanted wall clock, if any.
fn find_slot(slots: &Vec<Slot>, want: &Civil) -> (r: Option<usize>)
    ensures
        r matches Some(f) ==> f < slots@.len() && slots@[f as int].start == *want,
        r is None ==> forall|k: int| 0 <= k < slots@.len() ==> (#[trigger] slots@[k]).start
            != *want,
{
    let n = slots.len();
    let mut i: usize = 0;
    while i < n
        invariant
            0 <= i <= n == slots@.len(),
            forall|k: int| 0 <= k < i ==> (#[trigger] slots@[k]).start != *want,
        decreases n - i,
    {
        if slots[i].start == *want {
            return Some(i);
        }
        i = i + 1;
    }
    None
}

/// At most one slot of a window starts at any given wall clock, so the
/// slot chosen by its start is the slot found by its index.
proof fn lemma_slot_choice_unique(
    date: Civil,
    start_tod: int,
    end_tod: int,
    dur_min: int,
    brk_min: int,
    bks: Seq<Civil>,
    want: Civil,
    f: int,
)
    requires
        0 <= start_tod,
        1 <= dur_min,
        0 <= brk_min,
        end_tod < 86400,
        0 <= f < slot_count(start_tod, end_tod, dur_min, brk_min),
        spec_slot(date, start_tod, f, dur_min, brk_min, bks).start == want,
    ensures
        exists|k: int|
            0 <= k < slot_count(start_tod, end_tod, dur_min, brk_min) && (#[trigger] spec_slot(
                date,
                start_tod,
                k,
                dur_min,
                brk_min,
                bks,
            )).start == want,
        forall|k: int|
            0 <= k < slot_count(start_tod, end_tod, dur_min, brk_min) && (#[trigger] spec_slot(
                date,
                start_tod,
                k,
                dur_min,
                brk_min,
                bks,
            )).start == want ==> k == f,
{
    let n = slot_count(start_tod, end_tod, dur_min, brk_min);
    assert(0 <= f < n && spec_slot(date, start_tod, f, dur_min, brk_min, bks).start == want);
    assert forall|k: int|
        0 <= k < n && (#[trigger] spec_slot(date, start_tod, k, dur_min, brk_min, bks)).start
            == want implies k == f by {
        if k != f {
            let lo: int = if k < f {
                k
            } else {
                f
            };
            let hi: int = if k < f {
                f
            } else {
                k
            };
            crate::slots::lemma_slots_within_window(start_tod, end_tod, dur_min, brk_min, lo);
            crate::slots::lemma_slots_within_window(start_tod, end_tod, dur_min, brk_min, hi);
            lemma_mul_strict_inequality(lo, hi, slot_step(dur_min, brk_min));
            lemma_with_tod_injective(
                date,
                crate::slots::slot_start_tod(start_tod, lo, dur_min, brk_min),
                crate::slots::slot_start_tod(start_tod, hi, dur_min, brk_min),
            );
        }
    }
}

/// Run every check of `begin` that does not touch the lock table, the
/// in-flight state supplied as a fact: the referential matches, the
/// requested day and time, and the requested slot's existence and
/// freedom, in the order of [`spec_begin_err`].
#[verifier::rlimit(100)]
#[verifier::spinoff_prover]
fn begin_checks(
    req: &ReservationRequest,
    schedule_row: &Row,
    staff_row: &Row,
    booking_rows: &Vec<Row>,
    in_flight: bool,
) -> (r: Result<(), Error>)
    ensures
        r is Ok <==> spec_begin_err(
            in_flight,
            schedule_row.fields@,
            staff_row.fields@,
            booking_rows@,
            *req,
        ) is None,
        r matches Err(e) ==> Some(e) == spec_begin_err(
            in_flight,
            schedule_row.fields@,
            staff_row.fields@,
            booking_rows@,
            *req,
        ),
{
    let schedule = match schedule_from_row(schedule_row) {
        Ok(v) => v,
        Err(e) => return Err(e),
    };
    let staff = match staff_schedule_from_row(staff_row) {
        Ok(v) => v,
        Err(e) => return Err(e),
    };
    if !crate::parse::str_eq(schedule.service_id.as_str(), req.service_id.as_str()) {
        return Err(Error::ServiceMismatch);
    }
    if !crate::parse::str_eq(staff.schedule_id.as_str(), req.schedule_id.as_str()) {
        return Err(Error::ScheduleMismatch);
    }
    if !crate::parse::str_eq(staff.staff_id.as_str(), req.staff_id.as_str()) {
        return Err(Error::StaffMismatch);
    }
    if in_flight {
        return Err(Error::ReservationInFlight);
    }
    if !check_date(req.year, req.month, req.day) {
        return Err(Error::InvalidDate);
    }
    let booked = match booked_from_rows(booking_rows) {
        Ok(v) => v,
        Err(e) => return Err(e),
    };
    let rtod = match crate::parse::parse_time(req.time.as_str()) {
        Ok(v) => v,
        Err(_) => return Err(Error::InvalidTime),
    };
    let date = Civil {
        year: req.year as i32,
        month: req.month,
        day: req.day,
        hour: 0,
        minute: 0,
        second: 0,
    };
    let want = set_tod(&date, rtod);
    let slots = generate_slots(
        &date,
        staff.start_tod,
        staff.end_tod,
        schedule.duration_minutes,
        schedule.break_minutes,
        &booked,
    );
    let ghost gdate = date;
    let ghost gst = spec_staff_of_row(staff_row.fields@)->Ok_0;
    let ghost gsch = spec_schedule_of_row(schedule_row.fields@)->Ok_0;
    proof {
        assert forall|k: int| 0 <= k < slots@.len() implies (#[trigger] spec_slot(
            gdate,
            gst.start_tod,
            k,
            gsch.2,
            gsch.3,
            booked@,
        )) == slots@[k] by {
            assert(slots@[k] == spec_slot(gdate, gst.start_tod, k, gsch.2, gsch.3, booked@));
        }
    }
    let found = find_slot(&slots, &want);
    match found {
        None => Err(Error::SlotNotFound),
        Some(f) => {
            proof {
                let date0 = spec_date_civil(req.year as int, req.month as int, req.day as int);
                let bks0 = spec_booked_list(booking_rows@)->Ok_0;
                let want0 = with_tod(date0, spec_tod_value(req.time@));
                assert(gdate == date0);
                assert(bks0 == booked@);
                assert(want == want0);
                lemma_slot_choice_unique(
                    gdate,
                    gst.start_tod,
                    gst.end_tod,
                    gsch.2,
                    gsch.3,
                    booked@,
                    want,
                    f as int,
                );
            }
            if slots[f].booked {
                Err(Error::SlotBooked)
            } else {
                Ok(())
            }
        },
    }
}

/// Begin a reservation: validate the referential consistency of the
/// request, re-derive the slot list for the requested day, and claim the
/// schedule-and-day key in the lock table with the client's token.
///
/// On any refusal the table is left untouched; on success the key maps to
/// the client's token and nothing else changed. The conflict cases —
/// another reservation in flight, or the slot already booked — are
/// distinct errors, so a client can retry with another slot.
pub fn begin_reservation(
    table: &mut LockTable,
    req: &ReservationRequest,
    schedule_row: &Row,
    staff_row: &Row,
    booking_rows: &Vec<Row>,
) -> (r: Result<(), Error>)
    requires
        old(table).wf(),
    ensures
        final(table).wf(),
        r matches Err(e) ==> Some(e) == spec_begin_err(
            old(table)@.dom().contains(spec_request_key(*req)),
            schedule_row.fields@,
            staff_row.fields@,
            booking_rows@,
            *req,
        ) && final(table)@ == old(table)@,
        r is Ok <==> spec_begin_err(
            old(table)@.dom().contains(spec_request_key(*req)),
            schedule_row.fields@,
            staff_row.fields@,
            booking_rows@,
            *req,
        ) is None,
        r is Ok ==> final(table)@ =~= old(table)@.insert(spec_request_key(*req), req.client_key@),
{
    let key = request_key(req);
    let in_flight = table.contains(&key);
    match begin_checks(req, schedule_row, staff_row, booking_rows, in_flight) {
        Err(e) => Err(e),
        Ok(_) => {
            let inserted = table.try_insert(key, req.client_key.clone());
            proof {
                assert(inserted);
            }
            Ok(())
        },
    }
}

/// What a successful commit persists: the booking record the caller
/// appends to the external store, never mutating nor deleting.
#[derive(Debug, Clone)]
pub struct BookingFields {
    /// The booked instant's wall clock.
    pub book_date: Civil,
    /// The booked instant as Unix seconds, the booking's derived identity.
    pub book_id: i64,
    /// The slot duration, copied from the schedule.
    pub duration_minutes: u32,
    pub service_id: String,
    pub staff_id: String,
    pub contact_id: String,
    pub schema_data_id: String,
}

/// Why `commit` refuses, if it does. The checks run in this order: the
/// schedule row, the requested day, the requested time, a pending
/// reservation existing, and the offered token matching the stored one.
pub open spec fn spec_commit_err(
    m: Map<KeyView, Seq<char>>,
    sf: Seq<crate::rows::Field>,
    req: ReservationRequest,
) -> Option<Error> {
    match spec_schedule_of_row(sf) {
        Err(e) => Some(e),
        Ok(sch) => if !spec_date_ok(req.year as int, req.month as int, req.day as int) {
            Some(Error::InvalidDate)
        } else if !spec_tod_ok(req.time@) {
            Some(Error::InvalidTime)
        } else if !m.dom().contains(spec_request_key(req)) {
            Some(Error::ReservationMissing)
        } else if m[spec_request_key(req)] != req.client_key@ {
            Some(Error::TokenMismatch)
        } else {
            None
        },
    }
}

/// Commit a reservation: release the schedule-and-day key, provided the
/// offered token is the one stored on `begin`, and construct the booking
/// record to persist.
///
/// A reservation held by another token is refused and deliberately kept
/// in the table, so the stale entry stays visible; every refusal leaves
/// the table untouched, and no refusal produces a booking. On success the
/// key is released and the booking carries the requested instant, its
/// Unix-second identity, the schedule's duration and the request's
/// identities.
pub fn commit_reservation(
    table: &mut LockTable,
    req: &ReservationRequest,
    contact_id: String,
    schema_data_id: String,
    schedule_row: &Row,
) -> (r: Result<BookingFields, Error>)
    requires
        old(table).wf(),
    ensures
        final(table).wf(),
        r matches Err(e) ==> Some(e) == spec_commit_err(
            old(table)@,
            schedule_row.fields@,
            *req,
        ) && final(table)@ == old(table)@,
        r is Ok <==> spec_commit_err(old(table)@, schedule_row.fields@, *req) is None,
        r is Ok ==> final(table)@ =~= old(table)@.remove(spec_request_key(*req)),
        r matches Ok(b) ==> ({
            let sch = spec_schedule_of_row(schedule_row.fields@)->Ok_0;
            &&& b.book_date == with_tod(
                spec_date_civil(req.year as int, req.month as int, req.day as int),
                spec_tod_value(req.time@),
            )
            &&& valid_civil(b.book_date)
            &&& b.book_id == unix_of(
                b.book_date.year as int,
                b.book_date.month as int,
                b.book_date.day as int,
                b.book_date.hour as int,
                b.book_date.minute as int,
                b.book_date.second as int,
            )
            &&& b.duration_minutes as int == sch.2
            &&& b.service_id@ == req.service_id@
            &&& b.staff_id@ == req.staff_id@
            &&& b.contact_id@ == contact_id@
            &&& b.schema_data_id@ == schema_data_id@
        }),
{
    let schedule = match schedule_from_row(schedule_row) {
        Ok(v) => v,
        Err(e) => return Err(e),
    };
    if !check_date(req.year, req.month, req.day) {
        return Err(Error::InvalidDate);
    }
    let rtod = match crate::parse::parse_time(req.time.as_str()) {
        Ok(v) => v,
        Err(_) => return Err(Error::InvalidTime),
    };
    let key = request_key(req);
    let token_matches: bool = {
        match table.stored_token(&key) {
            Option::None => return Err(Error::ReservationMissing),
            Option::Some(stored) => crate::parse::str_eq(
                stored.as_str(),
                req.client_key.as_str(),
            ),
        }
    };
    if !token_matches {
        return Err(Error::TokenMismatch);
    }
    let removed = table.remove(&key);
    proof {
        assert(removed is Some);
    }
    let date = Civil {
        year: req.year as i32,
        month: req.month,
        day: req.day,
        hour: 0,
        minute: 0,
        second: 0,
    };
    let book_date = set_tod(&date, rtod);
    let book_id = match civil_to_unix(&book_date, 0) {
        Option::Some(t) => t,
        Option::None => {
            proof {
                assert(false);
            }
            return Err(Error::TimeOutOfRange);
        },
    };
    Ok(BookingFields {
        book_date,
        book_id,
        duration_minutes: schedule.duration_minutes,
        service_id: req.service_id.clone(),
        staff_id: req.staff_id.clone(),
        contact_id,
        schema_data_id,
    })
}

/// Abort a reservation: release the schedule-and-day key whether or not a
/// reservation was pending. Aborting never fails, and aborting twice is
/// the same as aborting once.
pub fn abort_reservation(table: &mut LockTable, req: &ReservationRequest)
    requires
        old(table).wf(),
    ensures
        final(table).wf(),
        final(table)@ =~= abort_model(old(table)@, spec_request_key(*req)),
{
    let key = request_key(req);
    let _ = table.remove(&key);
}


/// One concrete occurrence of a staff schedule inside the requested
/// month, shown on a UTC clock and on the schedule's local clock.
#[derive(Debug, Clone)]
pub struct DayOccurrence {
    pub staff_schedule_id: String,
    pub time_zone: String,
    /// The occurrence instant as Unix seconds.
    pub start_unix: i64,
    pub utc_start: Civil,
    pub local_start: Civil,
    pub utc_end: Civil,
    pub local_end: Civil,
}

/// Ghost view of a [`DayOccurrence`].
pub struct DayOccurrenceV {
    pub staff_schedule_id: Seq<char>,
    pub time_zone: Seq<char>,
    pub start_unix: int,
    pub utc_start: (int, int, int, int, int, int),
    pub local_start: (int, int, int, int, int, int),
    pub utc_end: (int, int, int, int, int, int),
    pub local_end: (int, int, int, int, int, int),
}

impl View for DayOccurrence {
    type V = DayOccurrenceV;

    open spec fn view(&self) -> DayOccurrenceV {
        DayOccurrenceV {
            staff_schedule_id: self.staff_schedule_id@,
            time_zone: self.time_zone@,
            start_unix: self.start_unix as int,
            utc_start: civil_fields(self.utc_start),
            local_start: civil_fields(self.local_start),
            utc_end: civil_fields(self.utc_end),
            local_end: civil_fields(self.local_end),
        }
    }
}

/// The anchor instant of a staff schedule: its start day at its start
/// time, read in its own offset.
pub open spec fn spec_anchor(st: crate::rows::StaffScheduleView) -> int {
    unix_of(
        st.start_day.year as int,
        st.start_day.month as int,
        st.start_day.day as int,
        st.start_tod / 3600,
        (st.start_tod / 60) % 60,
        st.start_tod % 60,
    ) - st.offset_seconds
}

/// The walk bound of a target month: its first local midnight.
pub open spec fn spec_bound(st: crate::rows::StaffScheduleView, ty: int, tm: int) -> int {
    unix_of(ty, tm, 1, 0, 0, 0) - st.offset_seconds
}

/// The occurrence instants of a staff schedule inside the target month.
pub open spec fn spec_walk(st: crate::rows::StaffScheduleView, ty: int, tm: int) -> Seq<int> {
    expand_walk(
        spec_anchor(st),
        step_days(st.frequency) * 86400,
        ty,
        tm,
        st.offset_seconds,
        spec_bound(st, ty, tm),
        0,
    )
}

/// The listing entry of one occurrence instant `o`: the instant itself,
/// its UTC and local clocks, and the clocks of the window's end,
/// `dist` seconds later.
pub open spec fn spec_day_view(st: crate::rows::StaffScheduleView, o: int, dist: int) -> DayOccurrenceV {
    DayOccurrenceV {
        staff_schedule_id: st.id,
        time_zone: st.time_zone,
        start_unix: o,
        utc_start: civil_of(o),
        local_start: civil_of(o + st.offset_seconds),
        utc_end: civil_of(o + dist),
        local_end: civil_of(o + st.offset_seconds + dist),
    }
}

/// The listing entries of one staff schedule for the target month, in
/// walk order.
pub open spec fn spec_row_days(st: crate::rows::StaffScheduleView, ty: int, tm: int) -> Seq<
    DayOccurrenceV,
> {
    Seq::new(
        spec_walk(st, ty, tm).len(),
        |k: int| spec_day_view(st, spec_walk(st, ty, tm)[k], st.end_tod - st.start_tod),
    )
}

/// Expand one staff schedule into its listing entries for the target
/// month. The only failure is an occurrence outside the supported
/// calendar range, which cannot happen while the anchor year and the
/// target year stay below 9900.
#[verifier::rlimit(100)]
#[verifier::spinoff_prover]
pub fn row_occurrences(staff: &StaffScheduleRecord, year: u32, month: u8) -> (r: Result<
    Vec<DayOccurrence>,
    Error,
>)
    requires
        crate::rows::staff_schedule_wf(*staff),
        year <= 9999,
        1 <= month <= 12,
    ensures
        r matches Ok(v) ==> ({
            let exp = spec_row_days(staff@, year as int, month as int);
            &&& v@.len() == exp.len()
            &&& forall|k: int| 0 <= k < v@.len() ==> (#[trigger] v@[k])@ == exp[k]
        }),
        r matches Err(e) ==> e == Error::TimeOutOfRange,
        staff.start_day.year <= 9899 && year <= 9899 ==> r is Ok,
{
    let start = set_tod(&staff.start_day, staff.start_tod);
    proof {
        assert(start.hour as int == staff.start_tod as int / 3600);
        assert(start.minute as int == (staff.start_tod as int / 60) % 60);
        assert(start.second as int == staff.start_tod as int % 60);
    }
    let occs = match expand_occurrences(
        &start,
        staff.offset_seconds,
        &staff.frequency,
        year as i32,
        month,
    ) {
        Ok(v) => v,
        Err(e) => return Err(e),
    };
    let ghost gwalk = spec_walk(staff@, year as int, month as int);
    proof {
        assert(occs@.map_values(|x: i64| x as int) == gwalk);
        assert(forall|k: int|
            0 <= k < occs@.len() ==> occs@.map_values(|x: i64| x as int)[k] == occs@[k] as int);
    }
    let dist: i64 = staff.end_tod as i64 - staff.start_tod as i64;
    let ghost safe: bool = staff.start_day.year <= 9899 && year <= 9899;
    let n = occs.len();
    let mut out: Vec<DayOccurrence> = Vec::new();
    let mut i: usize = 0;
    while i < n
        invariant
            0 <= i <= n == occs@.len(),
            out@.len() == i,
            gwalk == spec_walk(staff@, year as int, month as int),
            occs@.map_values(|x: i64| x as int) == gwalk,
            crate::rows::staff_schedule_wf(*staff),
            dist == staff.end_tod as int - staff.start_tod as int,
            safe == (staff.start_day.year <= 9899 && year <= 9899),
            safe ==> forall|k: int|
                0 <= k < occs@.len() ==> UNIX_MIN + 2500000000 <= #[trigger] occs@[k] <= UNIX_MAX
                    - 2500000000,
            forall|k: int|
                0 <= k < occs@.len() ==> UNIX_MIN - OFFSET_MAX <= #[trigger] occs@[k] <= UNIX_MAX
                    + OFFSET_MAX + 157248000,
            forall|k: int|
                0 <= k < i ==> (#[trigger] out@[k])@ == spec_row_days(
                    staff@,
                    year as int,
                    month as int,
                )[k],
        decreases n - i,
    {
        let o = occs[i];
        proof {
            assert(occs@.map_values(|x: i64| x as int)[i as int] == o as int);
            assert(gwalk[i as int] == o as int);
        }
        let utc_start = match unix_to_civil(o, 0) {
            Some(c) => c,
            None => {
                proof {
                    if safe {
                        assert(false);
                    }
                }
                return Err(Error::TimeOutOfRange);
            },
        };
        let local_start = match unix_to_civil(o, staff.offset_seconds) {
            Some(c) => c,
            None => {
                proof {
                    if safe {
                        assert(false);
                    }
                }
                return Err(Error::TimeOutOfRange);
            },
        };
        let utc_end = match unix_to_civil(o + dist, 0) {
            Some(c) => c,
            None => {
                proof {
                    if safe {
                        assert(false);
                    }
                }
                return Err(Error::TimeOutOfRange);
            },
        };
        let local_end = match unix_to_civil(o + dist, staff.offset_seconds) {
            Some(c) => c,
            None => {
                proof {
                    if safe {
                        assert(false);
                    }
                }
                return Err(Error::TimeOutOfRange);
            },
        };
        out.push(
            DayOccurrence {
                staff_schedule_id: staff.id.clone(),
                time_zone: staff.time_zone.clone(),
                start_unix: o,
                utc_start,
                local_start,
                utc_end,
                local_end,
            },
        );
        proof {
            let exp = spec_row_days(staff@, year as int, month as int);
            assert(exp[i as int] == spec_day_view(staff@, gwalk[i as int], dist as int));
            assert(out@[i as int]@ == exp[i as int]);
        }
        i = i + 1;
    }
    Ok(out)
}

/// The listing entries a row sequence denotes: each row validated as a
/// staff schedule and expanded, in row order, first row error winning.
pub open spec fn spec_days_rows(rows: Seq<Row>, ty: int, tm: int) -> Result<
    Seq<DayOccurrenceV>,
    Error,
>
    decreases rows.len(),
{
    if rows.len() == 0 {
        Ok(Seq::empty())
    } else {
        match spec_staff_of_row(rows[0].fields@) {
            Err(e) => Err(e),
            Ok(sv) => match spec_days_rows(rows.skip(1), ty, tm) {
                Err(e) => Err(e),
                Ok(rest) => Ok(spec_row_days(sv, ty, tm) + rest),
            },
        }
    }
}

/// The day-granularity listing over the raw inputs: a malformed target
/// month is an invalid-input error, then [`spec_days_rows`].
pub open spec fn spec_days_result(rows: Seq<Row>, ty: int, tm: int) -> Result<
    Seq<DayOccurrenceV>,
    Error,
> {
    if !(0 <= ty <= 9999 && 1 <= tm <= 12) {
        Err(Error::InvalidDate)
    } else {
        spec_days_rows(rows, ty, tm)
    }
}

/// List every occurrence of every staff schedule inside the requested
/// month, in row order and, per row, in chronological order.
///
/// Success is owed whenever the specification accepts the rows and the
/// anchor and target years stay below 9900; beyond that an occurrence may
/// fall outside the supported calendar range.
#[verifier::rlimit(100)]
#[verifier::spinoff_prover]
pub fn gather_available_days(year: u32, month: u8, rows: &Vec<Row>) -> (r: Result<
    Vec<DayOccurrence>,
    Error,
>)
    ensures
        r matches Ok(v) ==> ({
            let spec = spec_days_result(rows@, year as int, month as int);
            &&& spec is Ok
            &&& v@.len() == spec->Ok_0.len()
            &&& forall|k: int| 0 <= k < v@.len() ==> (#[trigger] v@[k])@ == spec->Ok_0[k]
        }),
        r matches Err(e) ==> e == Error::TimeOutOfRange || spec_days_result(
            rows@,
            year as int,
            month as int,
        ) == Err::<Seq<DayOccurrenceV>, Error>(e),
        (spec_days_result(rows@, year as int, month as int) is Ok && year <= 9899 && (forall|
            i: int,
        |
            0 <= i < rows@.len() ==> ((#[trigger] spec_staff_of_row(rows@[i].fields@)) matches Ok(
                sv,
            ) ==> sv.start_day.year <= 9899))) ==> r is Ok,
{
    if year > 9999 || month < 1 || month > 12 {
        return Err(Error::InvalidDate);
    }
    let n = rows.len();
    let mut out: Vec<DayOccurrence> = Vec::new();
    let mut i: usize = 0;
    proof {
        assert(rows@.skip(0) =~= rows@);
        if spec_days_rows(rows@, year as int, month as int) is Ok {
            let rest = spec_days_rows(rows@, year as int, month as int)->Ok_0;
            assert(out@.map_values(|d: DayOccurrence| d@) + rest =~= rest);
        }
    }
    while i < n
        invariant
            0 <= i <= n == rows@.len(),
            year <= 9999,
            1 <= month <= 12,
            spec_days_rows(rows@, year as int, month as int) == (match spec_days_rows(
                rows@.skip(i as int),
                year as int,
                month as int,
            ) {
                Err(e) => Err::<Seq<DayOccurrenceV>, Error>(e),
                Ok(rest) => Ok(out@.map_values(|d: DayOccurrence| d@) + rest),
            }),
        decreases n - i,
    {
        proof {
            assert(rows@.skip(i as int)[0] == rows@[i as int]);
            assert(rows@.skip(i as int).skip(1) =~= rows@.skip(i as int + 1));
        }
        let staff = match staff_schedule_from_row(&rows[i]) {
            Ok(v) => v,
            Err(e) => return Err(e),
        };
        let mut occs = match row_occurrences(&staff, year, month) {
            Ok(v) => v,
            Err(e) => {
                proof {
                    if spec_days_result(rows@, year as int, month as int) is Ok && year <= 9899
                        && (forall|j: int|
                        0 <= j < rows@.len() ==> ((#[trigger] spec_staff_of_row(
                            rows@[j].fields@,
                        )) matches Ok(sv) ==> sv.start_day.year <= 9899)) {
                        assert(spec_staff_of_row(rows@[i as int].fields@) matches Ok(sv)
                            ==> sv.start_day.year <= 9899);
                        assert(false);
                    }
                }
                return Err(e);
            },
        };
        let ghost prev = out@;
        let ghost goccs = occs@;
        out.append(&mut occs);
        proof {
            assert(out@ =~= prev + goccs);
            assert(goccs.map_values(|d: DayOccurrence| d@) =~= spec_row_days(
                staff@,
                year as int,
                month as int,
            ));
            assert(out@.map_values(|d: DayOccurrence| d@) =~= prev.map_values(
                |d: DayOccurrence| d@,
            ) + spec_row_days(staff@, year as int, month as int));
            if spec_days_rows(rows@.skip(i as int + 1), year as int, month as int) is Ok {
                let rest = spec_days_rows(rows@.skip(i as int + 1), year as int, month as int)->Ok_0;
                assert(prev.map_values(|d: DayOccurrence| d@) + (spec_row_days(
                    staff@,
                    year as int,
                    month as int,
                ) + rest) =~= out@.map_values(|d: DayOccurrence| d@) + rest);
            }
        }
        i = i + 1;
    }
    proof {
        assert(rows@.skip(n as int).len() == 0);
        assert(out@.map_values(|d: DayOccurrence| d@) + Seq::<DayOccurrenceV>::empty()
            =~= out@.map_values(|d: DayOccurrence| d@));
    }
    Ok(out)
}

} // verus!
