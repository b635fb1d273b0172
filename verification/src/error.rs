//! The failure taxonomy of the library.
//!
//! Every failure path maps to exactly one of four classes: validation errors
//! (malformed input, referential mismatch), conflict errors (a competing
//! reservation or booking), not-found errors (missing state or a missing row
//! field), and upstream errors (malformed data handed over by the external
//! store, or an instant outside the supported calendar range).

use vstd::prelude::*;

verus! {

/// The four classes of failure a caller can observe.
#[derive(Clone, Copy, Debug, PartialEq, Eq, Structural)]
pub enum ErrorClass {
    /// The request itself is malformed or inconsistent.
    Validation,
    /// A competing reservation or booking owns the contested slot.
    Conflict,
    /// State or data that the request refers to does not exist.
    NotFound,
    /// Data handed over by the external store is unusable.
    Upstream,
}

/// Every way a library operation can fail.
#[derive(Clone, Copy, Debug, PartialEq, Eq, Structural)]
pub enum Error {
    /// A recurrence frequency string is none of the supported ones.
    InvalidFrequency,
    /// The time-zone identifier of a schedule could not be resolved
    /// to a UTC offset.
    UnknownTimeZone,
    /// A calendar date is malformed or does not exist.
    InvalidDate,
    /// A wall-clock time is malformed.
    InvalidTime,
    /// A slot duration or break length is outside its allowed range.
    InvalidDuration,
    /// The supplied service does not belong to the supplied schedule.
    ServiceMismatch,
    /// The supplied schedule does not belong to the supplied staff schedule.
    ScheduleMismatch,
    /// The supplied staff member does not belong to the supplied staff
    /// schedule.
    StaffMismatch,
    /// The requested time is not one of the generated slots.
    SlotNotFound,
    /// The requested slot is already booked.
    SlotBooked,
    /// Another reservation for the same schedule and date is in flight.
    ReservationInFlight,
    /// No reservation is pending for the given schedule and date.
    ReservationMissing,
    /// The token offered on commit does not match the one stored on begin.
    TokenMismatch,
    /// A row fetched from the external store lacks a required field.
    MissingField,
    /// A row field holds a value of the wrong kind.
    FieldTypeMismatch,
    /// A stored booking instant does not follow the store's date-time
    /// serialization profile.
    MalformedBookDate,
    /// An instant fell outside the range the calendar arithmetic supports.
    TimeOutOfRange,
}

impl Error {
    /// The class a given error belongs to.
    pub open spec fn spec_class(self) -> ErrorClass {
        match self {
            Error::InvalidFrequency => ErrorClass::Validation,
            Error::UnknownTimeZone => ErrorClass::Validation,
            Error::InvalidDate => ErrorClass::Validation,
            Error::InvalidTime => ErrorClass::Validation,
            Error::InvalidDuration => ErrorClass::Validation,
            Error::ServiceMismatch => ErrorClass::Validation,
            Error::ScheduleMismatch => ErrorClass::Validation,
            Error::StaffMismatch => ErrorClass::Validation,
            Error::SlotNotFound => ErrorClass::Validation,
            Error::SlotBooked => ErrorClass::Conflict,
            Error::ReservationInFlight => ErrorClass::Conflict,
            Error::TokenMismatch => ErrorClass::Conflict,
            Error::ReservationMissing => ErrorClass::NotFound,
            Error::MissingField => ErrorClass::NotFound,
            Error::FieldTypeMismatch => ErrorClass::Upstream,
            Error::MalformedBookDate => ErrorClass::Upstream,
            Error::TimeOutOfRange => ErrorClass::Upstream,
        }
    }

    /// Report the class of this error.
    pub fn class(&self) -> (c: ErrorClass)
        ensures
            c == self.spec_class(),
    {
        match self {
            Error::InvalidFrequency => ErrorClass::Validation,
            Error::UnknownTimeZone => ErrorClass::Validation,
            Error::InvalidDate => ErrorClass::Validation,
            Error::InvalidTime => ErrorClass::Validation,
            Error::InvalidDuration => ErrorClass::Validation,
            Error::ServiceMismatch => ErrorClass::Validation,
            Error::ScheduleMismatch => ErrorClass::Validation,
            Error::StaffMismatch => ErrorClass::Validation,
            Error::SlotNotFound => ErrorClass::Validation,
            Error::SlotBooked => ErrorClass::Conflict,
            Error::ReservationInFlight => ErrorClass::Conflict,
            Error::TokenMismatch => ErrorClass::Conflict,
            Error::ReservationMissing => ErrorClass::NotFound,
            Error::MissingField => ErrorClass::NotFound,
            Error::FieldTypeMismatch => ErrorClass::Upstream,
            Error::MalformedBookDate => ErrorClass::Upstream,
            Error::TimeOutOfRange => ErrorClass::Upstream,
        }
    }
}

} // verus!
