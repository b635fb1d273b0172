//! Bookable-slot computation and reservation protocol for a recurring staff
//! schedule.
//!
//! The crate computes, for a weekly/periodic schedule kept in an external
//! row-oriented store, the concrete occurrence days inside a requested month,
//! slices one occurrence's working window into fixed-duration slots with a
//! `booked` flag, and serializes concurrent booking attempts through a
//! three-phase begin/commit/abort protocol over an in-memory lock table.
//!
//! All calendar arithmetic is delegated to the `time` crate behind two small
//! trusted wrappers in [`civil`]; everything else is verified.

pub mod civil;
pub mod error;
pub mod parse;
pub mod recurrence;
pub mod render;
pub mod reservation;
pub mod rows;
pub mod service;
pub mod slots;
