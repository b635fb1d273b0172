//! Typed access to the rows the external store hands over.
//!
//! The store is row-oriented and stringly typed: a row is a list of named
//! fields, each holding text or a number. The accessors here resolve a
//! field by name and kind — a missing field is a missing-state error, a
//! field of the wrong kind an upstream error — and the per-collection
//! constructors below validate a whole row once, at the service boundary,
//! into the strongly typed records the computation components work on.
//!
//! Time-zone identifiers are an exception: resolving one to a UTC offset
//! takes a time-zone database the library does not carry, so the caller
//! resolves the schedule's `timeZone` field and supplies the offset as an
//! extra numeric field, `timeZoneOffsetSeconds`; a row whose offset is
//! missing or out of range is rejected as an unresolvable time zone.

use vstd::prelude::*;

use crate::civil::{valid_civil, Civil, OFFSET_MAX};
use crate::error::Error;
use crate::parse::{
    date_of_text, date_text_ok, parse_date, parse_time, str_eq, time_fields_ok, time_text_ok,
    tod_of_text,
};
use crate::recurrence::{freq_of_text, parse_frequency, Frequency};

verus! {

/// One stored field value: text or a whole number.
#[derive(Debug, Clone)]
pub enum FieldValue {
    Text(String),
    Number(i64),
}

/// One named field of a row.
#[derive(Debug, Clone)]
pub struct Field {
    pub name: String,
    pub value: FieldValue,
}

/// A row fetched from the external store.
#[derive(Debug, Clone)]
pub struct Row {
    pub fields: Vec<Field>,
}

/// The first field named `name`, if any.
pub open spec fn lookup(s: Seq<Field>, name: Seq<char>) -> Option<FieldValue>
    decreases s.len(),
{
    if s.len() == 0 {
        None
    } else if s[0].name@ == name {
        Some(s[0].value)
    } else {
        lookup(s.skip(1), name)
    }
}

/// The text held by field `name`: a missing field is missing state, a
/// numeric field the wrong kind.
pub open spec fn spec_text(s: Seq<Field>, name: Seq<char>) -> Result<Seq<char>, Error> {
    match lookup(s, name) {
        Option::None => Err(Error::MissingField),
        Option::Some(FieldValue::Text(t)) => Ok(t@),
        Option::Some(FieldValue::Number(_)) => Err(Error::FieldTypeMismatch),
    }
}

/// The number held by field `name`, with the same error split.
pub open spec fn spec_number(s: Seq<Field>, name: Seq<char>) -> Result<int, Error> {
    match lookup(s, name) {
        Option::None => Err(Error::MissingField),
        Option::Some(FieldValue::Text(_)) => Err(Error::FieldTypeMismatch),
        Option::Some(FieldValue::Number(n)) => Ok(n as int),
    }
}

impl Row {
    /// The first field named `name`, if any.
    pub fn get(&self, name: &str) -> (r: Option<&FieldValue>)
        ensures
            r matches Some(v) ==> lookup(self.fields@, name@) == Some(*v),
            r is Some <==> lookup(self.fields@, name@) is Some,
    {
        let n = self.fields.len();
        let mut i: usize = 0;
        proof {
            assert(self.fields@.skip(0) =~= self.fields@);
        }
        while i < n
            invariant
                0 <= i <= n == self.fields@.len(),
                lookup(self.fields@, name@) == lookup(self.fields@.skip(i as int), name@),
            decreases n - i,
        {
            proof {
                assert(self.fields@.skip(i as int)[0] == self.fields@[i as int]);
                assert(self.fields@.skip(i as int).skip(1) =~= self.fields@.skip(i as int + 1));
            }
            if str_eq(self.fields[i].name.as_str(), name) {
                return Some(&self.fields[i].value);
            }
            i = i + 1;
        }
        None
    }

    /// The text held by field `name`.
    pub fn text_field(&self, name: &str) -> (r: Result<String, Error>)
        ensures
            r matches Ok(t) ==> spec_text(self.fields@, name@) == Ok::<Seq<char>, Error>(t@),
            r matches Err(e) ==> spec_text(self.fields@, name@) == Err::<Seq<char>, Error>(e),
    {
        match self.get(name) {
            Option::Some(FieldValue::Text(t)) => Ok(t.clone()),
            Option::Some(FieldValue::Number(_)) => Err(Error::FieldTypeMismatch),
            Option::None => Err(Error::MissingField),
        }
    }

    /// The number held by field `name`.
    pub fn number_field(&self, name: &str) -> (r: Result<i64, Error>)
        ensures
            r matches Ok(n) ==> spec_number(self.fields@, name@) == Ok::<int, Error>(n as int),
            r matches Err(e) ==> spec_number(self.fields@, name@) == Err::<int, Error>(e),
    {
        match self.get(name) {
            Option::Some(FieldValue::Number(n)) => Ok(*n),
            Option::Some(FieldValue::Text(_)) => Err(Error::FieldTypeMismatch),
            Option::None => Err(Error::MissingField),
        }
    }
}

/// A schedule row, validated: the service it belongs to, the slot duration
/// and the break between slots.
#[derive(Debug, Clone)]
pub struct ScheduleRecord {
    pub id: String,
    pub service_id: String,
    pub duration_minutes: u32,
    pub break_minutes: u32,
}

/// The validated fields of a schedule row, in the order they are read:
/// `id`, `service`, `duration`, `break`. A non-positive or oversized
/// duration, or a negative or oversized break, is an invalid duration.
#[verifier::opaque]
pub open spec fn spec_schedule_of_row(s: Seq<Field>) -> Result<
    (Seq<char>, Seq<char>, int, int),
    Error,
> {
    match spec_text(s, "id"@) {
        Err(e) => Err(e),
        Ok(id) => match spec_text(s, "service"@) {
            Err(e) => Err(e),
            Ok(service) => match spec_number(s, "duration"@) {
                Err(e) => Err(e),
                Ok(duration) => match spec_number(s, "break"@) {
                    Err(e) => Err(e),
                    Ok(brk) => if 1 <= duration <= u32::MAX && 0 <= brk <= u32::MAX {
                        Ok((id, service, duration, brk))
                    } else {
                        Err(Error::InvalidDuration)
                    },
                },
            },
        },
    }
}

/// Validate a schedule row into a [`ScheduleRecord`].
pub fn schedule_from_row(row: &Row) -> (r: Result<ScheduleRecord, Error>)
    ensures
        r matches Ok(rec) ==> spec_schedule_of_row(row.fields@) matches Ok(v) && rec.id@ == v.0
            && rec.service_id@ == v.1 && rec.duration_minutes as int == v.2
            && rec.break_minutes as int == v.3,
        r matches Ok(rec) ==> rec.duration_minutes >= 1,
        r matches Err(e) ==> spec_schedule_of_row(row.fields@) == Err::<
            (Seq<char>, Seq<char>, int, int),
            Error,
        >(e),
{
    proof {
        reveal(spec_schedule_of_row);
    }
    let id = match row.text_field("id") {
        Ok(v) => v,
        Err(e) => return Err(e),
    };
    let service_id = match row.text_field("service") {
        Ok(v) => v,
        Err(e) => return Err(e),
    };
    let duration = match row.number_field("duration") {
        Ok(v) => v,
        Err(e) => return Err(e),
    };
    let brk = match row.number_field("break") {
        Ok(v) => v,
        Err(e) => return Err(e),
    };
    if duration < 1 || duration > u32::MAX as i64 || brk < 0 || brk > u32::MAX as i64 {
        return Err(Error::InvalidDuration);
    }
    Ok(ScheduleRecord {
        id,
        service_id,
        duration_minutes: duration as u32,
        break_minutes: brk as u32,
    })
}

/// A staff-schedule row, validated: who works when, where, and how the
/// schedule repeats.
#[derive(Debug, Clone)]
pub struct StaffScheduleRecord {
    pub id: String,
    pub schedule_id: String,
    pub staff_id: String,
    pub time_zone: String,
    pub offset_seconds: i32,
    pub start_day: Civil,
    pub start_tod: u32,
    pub end_tod: u32,
    pub frequency: Frequency,
}

/// The record's fields describe a real local working window: an existing
/// anchor day and wall-clock times, with an offset the calendar arithmetic
/// accepts.
pub open spec fn staff_schedule_wf(rec: StaffScheduleRecord) -> bool {
    &&& valid_civil(rec.start_day)
    &&& 0 <= rec.start_day.year <= 9999
    &&& rec.start_tod < 86400
    &&& rec.end_tod < 86400
    &&& -OFFSET_MAX <= rec.offset_seconds <= OFFSET_MAX
}

/// The validated values of a staff-schedule row. Ghost view of
/// [`StaffScheduleRecord`].
pub struct StaffScheduleView {
    pub id: Seq<char>,
    pub schedule_id: Seq<char>,
    pub staff_id: Seq<char>,
    pub time_zone: Seq<char>,
    pub offset_seconds: int,
    pub start_day: Civil,
    pub start_tod: int,
    pub end_tod: int,
    pub frequency: Frequency,
}

impl View for StaffScheduleRecord {
    type V = StaffScheduleView;

    open spec fn view(&self) -> StaffScheduleView {
        StaffScheduleView {
            id: self.id@,
            schedule_id: self.schedule_id@,
            staff_id: self.staff_id@,
            time_zone: self.time_zone@,
            offset_seconds: self.offset_seconds as int,
            start_day: self.start_day,
            start_tod: self.start_tod as int,
            end_tod: self.end_tod as int,
            frequency: self.frequency,
        }
    }
}

/// The wall-clock seconds a stored time text denotes, fraction dropped.
pub open spec fn spec_tod_value(t: Seq<char>) -> int {
    tod_of_text(
        if t.len() == 10 {
            t.subrange(0, 8)
        } else {
            t
        },
    )
}

/// A stored time text is well formed and names a real time of day.
pub open spec fn spec_tod_ok(t: Seq<char>) -> bool {
    time_text_ok(t) && time_fields_ok(
        if t.len() == 10 {
            t.subrange(0, 8)
        } else {
            t
        },
    )
}

/// The validated fields of a staff-schedule row, in the order they are
/// read: `id`, `schedule`, `staff`, `timeZone`, `timeZoneOffsetSeconds`
/// (the caller-resolved offset, an unresolvable zone if missing or out of
/// range), `startDay`, `start`, `end`, `frequency`.
#[verifier::opaque]
pub open spec fn spec_staff_of_row(s: Seq<Field>) -> Result<StaffScheduleView, Error> {
    match spec_text(s, "id"@) {
        Err(e) => Err(e),
        Ok(id) => match spec_text(s, "schedule"@) {
            Err(e) => Err(e),
            Ok(schedule_id) => match spec_text(s, "staff"@) {
                Err(e) => Err(e),
                Ok(staff_id) => match spec_text(s, "timeZone"@) {
                    Err(e) => Err(e),
                    Ok(time_zone) => match spec_number(s, "timeZoneOffsetSeconds"@) {
                        Err(_) => Err(Error::UnknownTimeZone),
                        Ok(off) => if !(-OFFSET_MAX <= off <= OFFSET_MAX) {
                            Err(Error::UnknownTimeZone)
                        } else {
                            match spec_text(s, "startDay"@) {
                                Err(e) => Err(e),
                                Ok(sd) => if !(date_text_ok(sd) && crate::civil::valid_date(
                                    date_of_text(sd),
                                )) {
                                    Err(Error::InvalidDate)
                                } else {
                                    match spec_text(s, "start"@) {
                                        Err(e) => Err(e),
                                        Ok(st) => if !spec_tod_ok(st) {
                                            Err(Error::InvalidTime)
                                        } else {
                                            match spec_text(s, "end"@) {
                                                Err(e) => Err(e),
                                                Ok(en) => if !spec_tod_ok(en) {
                                                    Err(Error::InvalidTime)
                                                } else {
                                                    match spec_text(s, "frequency"@) {
                                                        Err(e) => Err(e),
                                                        Ok(fr) => match freq_of_text(fr) {
                                                            Option::None => Err(
                                                                Error::InvalidFrequency,
                                                            ),
                                                            Option::Some(freq) => Ok(
                                                                StaffScheduleView {
                                                                    id: id,
                                                                    schedule_id: schedule_id,
                                                                    staff_id: staff_id,
                                                                    time_zone: time_zone,
                                                                    offset_seconds: off,
                                                                    start_day: date_of_text(sd),
                                                                    start_tod: spec_tod_value(st),
                                                                    end_tod: spec_tod_value(en),
                                                                    frequency: freq,
                                                                },
                                                            ),
                                                        },
                                                    }
                                                },
                                            }
                                        },
                                    }
                                },
                            }
                        },
                    },
                },
            },
        },
    }
}

/// Validate a staff-schedule row into a [`StaffScheduleRecord`].
pub fn staff_schedule_from_row(row: &Row) -> (r: Result<StaffScheduleRecord, Error>)
    ensures
        r matches Ok(rec) ==> spec_staff_of_row(row.fields@) == Ok::<StaffScheduleView, Error>(
            rec@,
        ),
        r matches Ok(rec) ==> staff_schedule_wf(rec),
        r matches Err(e) ==> spec_staff_of_row(row.fields@) == Err::<StaffScheduleView, Error>(e),
{
    proof {
        reveal(spec_staff_of_row);
    }
    let id = match row.text_field("id") {
        Ok(v) => v,
        Err(e) => return Err(e),
    };
    let schedule_id = match row.text_field("schedule") {
        Ok(v) => v,
        Err(e) => return Err(e),
    };
    let staff_id = match row.text_field("staff") {
        Ok(v) => v,
        Err(e) => return Err(e),
    };
    let time_zone = match row.text_field("timeZone") {
        Ok(v) => v,
        Err(e) => return Err(e),
    };
    let off = match row.number_field("timeZoneOffsetSeconds") {
        Ok(v) => v,
        Err(_) => return Err(Error::UnknownTimeZone),
    };
    if off < -(OFFSET_MAX as i64) || off > OFFSET_MAX as i64 {
        return Err(Error::UnknownTimeZone);
    }
    let start_day_text = match row.text_field("startDay") {
        Ok(v) => v,
        Err(e) => return Err(e),
    };
    let start_day = match parse_date(start_day_text.as_str()) {
        Ok(v) => v,
        Err(e) => return Err(e),
    };
    let start_text = match row.text_field("start") {
        Ok(v) => v,
        Err(e) => return Err(e),
    };
    let start_tod = match parse_time(start_text.as_str()) {
        Ok(v) => v,
        Err(e) => return Err(e),
    };
    let end_text = match row.text_field("end") {
        Ok(v) => v,
        Err(e) => return Err(e),
    };
    let end_tod = match parse_time(end_text.as_str()) {
        Ok(v) => v,
        Err(e) => return Err(e),
    };
    let freq_text = match row.text_field("frequency") {
        Ok(v) => v,
        Err(e) => return Err(e),
    };
    let frequency = match parse_frequency(freq_text.as_str()) {
        Ok(v) => v,
        Err(e) => return Err(e),
    };
    Ok(StaffScheduleRecord {
        id,
        schedule_id,
        staff_id,
        time_zone,
        offset_seconds: off as i32,
        start_day,
        start_tod,
        end_tod,
        frequency,
    })
}

/// The wall clock a booking row's `bookDate` text shows, in the booking's
/// own stored offset; comparisons re-read it in the schedule's offset.
pub open spec fn spec_book_civil(s: Seq<Field>) -> Result<Civil, Error> {
    match spec_text(s, "bookDate"@) {
        Err(e) => Err(e),
        Ok(t) => if crate::parse::book_date_accepted(t) {
            Ok(crate::parse::book_date_value(t))
        } else {
            Err(Error::MalformedBookDate)
        },
    }
}

/// The booked wall clocks of a list of booking rows, first error winning.
pub open spec fn spec_booked_list(rows: Seq<Row>) -> Result<Seq<Civil>, Error>
    decreases rows.len(),
{
    if rows.len() == 0 {
        Ok(Seq::empty())
    } else {
        match spec_book_civil(rows[0].fields@) {
            Err(e) => Err(e),
            Ok(c) => match spec_booked_list(rows.skip(1)) {
                Err(e) => Err(e),
                Ok(rest) => Ok(seq![c] + rest),
            },
        }
    }
}

/// Read every booking row's `bookDate` wall clock, in row order.
pub fn booked_from_rows(rows: &Vec<Row>) -> (r: Result<Vec<Civil>, Error>)
    ensures
        r matches Ok(v) ==> spec_booked_list(rows@) == Ok::<Seq<Civil>, Error>(v@),
        r matches Err(e) ==> spec_booked_list(rows@) == Err::<Seq<Civil>, Error>(e),
        r matches Ok(v) ==> forall|i: int| 0 <= i < v@.len() ==> valid_civil(#[trigger] v@[i]),
{
    let n = rows.len();
    let mut out: Vec<Civil> = Vec::new();
    let mut i: usize = 0;
    proof {
        assert(rows@.skip(0) =~= rows@);
        if spec_booked_list(rows@) is Ok {
            let rest = spec_booked_list(rows@)->Ok_0;
            assert(out@ + rest =~= rest);
        }
    }
    while i < n
        invariant
            0 <= i <= n == rows@.len(),
            spec_booked_list(rows@) == (match spec_booked_list(rows@.skip(i as int)) {
                Err(e) => Err::<Seq<Civil>, Error>(e),
                Ok(rest) => Ok(out@ + rest),
            }),
            forall|j: int| 0 <= j < out@.len() ==> valid_civil(#[trigger] out@[j]),
        decreases n - i,
    {
        proof {
            assert(rows@.skip(i as int)[0] == rows@[i as int]);
            assert(rows@.skip(i as int).skip(1) =~= rows@.skip(i as int + 1));
        }
        let text = match rows[i].text_field("bookDate") {
            Ok(v) => v,
            Err(e) => return Err(e),
        };
        let c = match crate::parse::parse_book_date(text.as_str()) {
            Ok(v) => v,
            Err(e) => return Err(e),
        };
        let ghost prev = out@;
        out.push(c);
        proof {
            assert(out@ =~= prev + seq![c]);
            if spec_booked_list(rows@.skip(i as int + 1)) is Ok {
                let rest = spec_booked_list(rows@.skip(i as int + 1))->Ok_0;
                assert(prev + (seq![c] + rest) =~= out@ + rest);
            }
        }
        i = i + 1;
    }
    proof {
        assert(rows@.skip(n as int).len() == 0);
        assert(out@ + Seq::<Civil>::empty() =~= out@);
    }
    Ok(out)
}

} // verus!
