//! The slot generator.
//!
//! One occurrence's working window (start and end wall-clock time on one
//! local calendar day) is sliced into slots of a fixed duration, separated
//! by a fixed break: a slot starts every `duration + break` minutes from the
//! window start, as long as its whole span, break included, fits before the
//! window end. A slot is flagged booked when some already-booked wall clock
//! falls within the slot's duration, boundaries included: bookings are
//! compared as wall clocks re-expressed in the schedule's own offset, so
//! wall-clock order is exactly instant order.
//!
//! All quantities are whole minutes and seconds; generation is
//! deterministic and recomputable from its inputs.

use vstd::prelude::*;
use vstd::arithmetic::div_mod::{
    lemma_fundamental_div_mod, lemma_fundamental_div_mod_converse,
};
use vstd::arithmetic::mul::lemma_mul_inequality;

use crate::civil::{valid_date, wall_le, with_tod, set_tod, valid_civil, wall_cmp_le, Civil};

verus! {

/// A bookable interval of one occurrence's working window.
#[derive(Clone, Copy, Debug, PartialEq, Eq, Structural)]
pub struct Slot {
    /// The wall clock at which the slot starts.
    pub start: Civil,
    /// The wall clock at which the slot's bookable duration ends.
    pub end: Civil,
    /// Whether an existing booking already occupies the slot.
    pub booked: bool,
}

/// The span one slot claims of the window, in seconds: its duration plus
/// the break that follows it.
pub open spec fn slot_step(dur_min: int, brk_min: int) -> int {
    (dur_min + brk_min) * 60
}

/// How many slots the window holds: one for every whole `duration + break`
/// span between the window's start and end.
pub open spec fn slot_count(start_tod: int, end_tod: int, dur_min: int, brk_min: int) -> int {
    if start_tod <= end_tod {
        (end_tod - start_tod) / slot_step(dur_min, brk_min)
    } else {
        0
    }
}

/// The wall-clock time, in seconds since midnight, at which slot `k` starts.
pub open spec fn slot_start_tod(start_tod: int, k: int, dur_min: int, brk_min: int) -> int {
    start_tod + k * slot_step(dur_min, brk_min)
}

/// Some booked wall clock falls within `[s, e]`, boundaries included.
pub open spec fn booked_within(bks: Seq<Civil>, s: Civil, e: Civil) -> bool {
    exists|i: int| 0 <= i < bks.len() && wall_le(s, #[trigger] bks[i]) && wall_le(bks[i], e)
}

/// Slot `k` of the window that opens at `start_tod` on `date`.
pub open spec fn spec_slot(
    date: Civil,
    start_tod: int,
    k: int,
    dur_min: int,
    brk_min: int,
    bks: Seq<Civil>,
) -> Slot {
    let s = with_tod(date, slot_start_tod(start_tod, k, dur_min, brk_min));
    let e = with_tod(date, slot_start_tod(start_tod, k, dur_min, brk_min) + dur_min * 60);
    Slot { start: s, end: e, booked: booked_within(bks, s, e) }
}

/// Decide whether some booked wall clock falls within `[s, e]`.
fn any_booked(booked: &Vec<Civil>, s: &Civil, e: &Civil) -> (r: bool)
    ensures
        r == booked_within(booked@, *s, *e),
{
    let mut j: usize = 0;
    while j < booked.len()
        invariant
            0 <= j <= booked@.len(),
            forall|i: int|
                0 <= i < j ==> !(wall_le(*s, #[trigger] booked@[i]) && wall_le(booked@[i], *e)),
        decreases booked@.len() - j,
    {
        let within = wall_cmp_le(s, &booked[j]) && wall_cmp_le(&booked[j], e);
        if within {
            return true;
        }
        j = j + 1;
    }
    false
}

/// Slice the working window `[start_tod, end_tod]` on `date` into slots of
/// `duration_minutes`, `break_minutes` apart, flagging each slot that an
/// existing booking occupies.
///
/// The result holds exactly one slot per whole `duration + break` span that
/// fits in the window, in ascending order, and each slot is exactly
/// [`spec_slot`] of its index: in particular no slot extends past the
/// window end. A window the span does not fit in yields no slots, which is
/// not an error.
pub fn generate_slots(
    date: &Civil,
    start_tod: u32,
    end_tod: u32,
    duration_minutes: u32,
    break_minutes: u32,
    booked: &Vec<Civil>,
) -> (r: Vec<Slot>)
    requires
        valid_date(*date),
        start_tod < 86400,
        end_tod < 86400,
        1 <= duration_minutes,
    ensures
        r@.len() == slot_count(
            start_tod as int,
            end_tod as int,
            duration_minutes as int,
            break_minutes as int,
        ),
        forall|k: int|
            0 <= k < r@.len() ==> r@[k] == spec_slot(
                *date,
                start_tod as int,
                k,
                duration_minutes as int,
                break_minutes as int,
                booked@,
            ),
        forall|k: int| 0 <= k < r@.len() ==> valid_civil(#[trigger] r@[k].start) && valid_civil(
            r@[k].end,
        ),
{
    let ghost gstep: int = slot_step(duration_minutes as int, break_minutes as int);
    let dur_s: u64 = duration_minutes as u64 * 60;
    let brk_s: u64 = break_minutes as u64 * 60;
    let step: u64 = dur_s + brk_s;
    let mut out: Vec<Slot> = Vec::new();
    let mut cursor: u64 = start_tod as u64;
    proof {
        assert(out@.len() * gstep == 0);
    }
    while cursor + dur_s + brk_s <= end_tod as u64
        invariant
            valid_date(*date),
            start_tod < 86400,
            end_tod < 86400,
            1 <= duration_minutes,
            gstep == slot_step(duration_minutes as int, break_minutes as int),
            gstep >= 60,
            dur_s == duration_minutes as int * 60,
            brk_s == break_minutes as int * 60,
            step == gstep,
            cursor as int == start_tod as int + out@.len() * gstep,
            out@.len() == 0 || cursor <= end_tod as u64,
            forall|k: int|
                0 <= k < out@.len() ==> out@[k] == spec_slot(
                    *date,
                    start_tod as int,
                    k,
                    duration_minutes as int,
                    break_minutes as int,
                    booked@,
                ),
            forall|k: int| 0 <= k < out@.len() ==> valid_civil(#[trigger] out@[k].start)
                && valid_civil(out@[k].end),
        decreases end_tod as int - cursor as int,
    {
        let s = set_tod(date, cursor as u32);
        let e = set_tod(date, (cursor + dur_s) as u32);
        let b = any_booked(booked, &s, &e);
        let ghost prev = out@;
        out.push(Slot { start: s, end: e, booked: b });
        proof {
            let l: int = prev.len() as int;
            assert((l + 1) * gstep == l * gstep + gstep) by (nonlinear_arith);
            assert(out@[l] == spec_slot(
                *date,
                start_tod as int,
                l,
                duration_minutes as int,
                break_minutes as int,
                booked@,
            ));
        }
        cursor = cursor + step;
    }
    proof {
        let l: int = out@.len() as int;
        let d: int = end_tod as int - start_tod as int;
        if start_tod <= end_tod {
            assert(l * gstep == cursor as int - start_tod as int);
            assert(d < l * gstep + gstep);
            lemma_fundamental_div_mod_converse(d, gstep, l, d - l * gstep);
        } else {
            assert(l == 0);
        }
    }
    out
}


/// A booked wall clock exactly at a slot's start occupies that slot: the
/// persisted instant of a committed reservation makes the same slot
/// report booked on the next listing.
pub proof fn lemma_booking_at_start_occupies(
    date: Civil,
    start_tod: int,
    end_tod: int,
    dur_min: int,
    brk_min: int,
    k: int,
    bks: Seq<Civil>,
)
    requires
        0 <= start_tod,
        end_tod < 86400,
        1 <= dur_min,
        0 <= brk_min,
        0 <= k < slot_count(start_tod, end_tod, dur_min, brk_min),
        exists|i: int|
            0 <= i < bks.len() && #[trigger] bks[i] == with_tod(
                date,
                slot_start_tod(start_tod, k, dur_min, brk_min),
            ),
    ensures
        spec_slot(date, start_tod, k, dur_min, brk_min, bks).booked,
{
    lemma_slots_within_window(start_tod, end_tod, dur_min, brk_min, k);
    let stod = slot_start_tod(start_tod, k, dur_min, brk_min);
    let i = choose|i: int|
        0 <= i < bks.len() && #[trigger] bks[i] == with_tod(date, stod);
    crate::civil::lemma_with_tod_order(date, stod, stod);
    crate::civil::lemma_with_tod_order(date, stod, stod + dur_min * 60);
    assert(wall_le(with_tod(date, stod), bks[i]));
    assert(wall_le(bks[i], with_tod(date, stod + dur_min * 60)));
}

/// Every generated slot lies within the working window: the slot's span,
/// break included, ends at or before the window end.
pub proof fn lemma_slots_within_window(
    start_tod: int,
    end_tod: int,
    dur_min: int,
    brk_min: int,
    k: int,
)
    requires
        0 <= start_tod,
        1 <= dur_min,
        0 <= brk_min,
        0 <= k < slot_count(start_tod, end_tod, dur_min, brk_min),
    ensures
        slot_start_tod(start_tod, k, dur_min, brk_min) + dur_min * 60 + brk_min * 60 <= end_tod,
        start_tod <= slot_start_tod(start_tod, k, dur_min, brk_min),
{
    let step = slot_step(dur_min, brk_min);
    let d = end_tod - start_tod;
    let n = slot_count(start_tod, end_tod, dur_min, brk_min);
    lemma_fundamental_div_mod(d, step);
    assert(d == step * (d / step) + d % step);
    lemma_mul_inequality(k + 1, n, step);
    assert((k + 1) * step == k * step + step) by (nonlinear_arith);
    assert(n * step == step * n) by (nonlinear_arith);
    assert(k * step >= 0) by (nonlinear_arith)
        requires
            k >= 0,
            step >= 0,
    ;
    assert(dur_min * 60 + brk_min * 60 == (dur_min + brk_min) * 60) by (nonlinear_arith);
}

/// Where the slot span (duration plus break) evenly divides the working
/// window and fits it at least once, the last slot's span ends exactly at
/// the window end; where it does not divide it evenly, the final partial
/// remainder is shorter than a span and so yields no slot — the count is
/// the whole number of spans either way.
pub proof fn lemma_even_division_fills_window(
    start_tod: int,
    end_tod: int,
    dur_min: int,
    brk_min: int,
)
    requires
        0 <= start_tod <= end_tod,
        1 <= dur_min,
        0 <= brk_min,
        (end_tod - start_tod) % slot_step(dur_min, brk_min) == 0,
        slot_step(dur_min, brk_min) <= end_tod - start_tod,
    ensures
        slot_count(start_tod, end_tod, dur_min, brk_min) >= 1,
        slot_start_tod(
            start_tod,
            slot_count(start_tod, end_tod, dur_min, brk_min) - 1,
            dur_min,
            brk_min,
        ) + dur_min * 60 + brk_min * 60 == end_tod,
{
    let step = slot_step(dur_min, brk_min);
    let d = end_tod - start_tod;
    let n = d / step;
    lemma_fundamental_div_mod(d, step);
    assert(d == step * n);
    assert(n >= 1) by (nonlinear_arith)
        requires
            d == step * n,
            step <= d,
            step >= 60,
    ;
    assert((n - 1) * step + step == step * n) by (nonlinear_arith);
    assert(dur_min * 60 + brk_min * 60 == (dur_min + brk_min) * 60) by (nonlinear_arith);
}

} // verus!
