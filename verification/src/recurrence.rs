//! The recurrence expander.
//!
//! A schedule's recurrence rule is expanded into the concrete occurrence
//! instants whose local calendar month equals a requested target month. The
//! expansion is a bounded forward walk from the schedule's anchor instant:
//! the step is a fixed number of days per frequency (the monthly and yearly
//! steps are the documented 28- and 364-day approximations, not true
//! calendar arithmetic), and each walked instant is classified against the
//! target month by its local calendar representation — skipped while still
//! before the month, accumulated while inside it, and the walk stops at the
//! first instant strictly past it, or once five occurrences were found (a
//! month holds at most five weekly periods).
//!
//! The walk does not restart per month: a query for a far-future month walks
//! every elapsed period from the anchor. That is a documented scaling limit
//! of the design, acceptable because the supported periods are short.

use vstd::prelude::*;

use crate::civil::{
    civil_fields, civil_of, civil_to_unix, unix_of, unix_to_civil, valid_civil, Civil, OFFSET_MAX,
    UNIX_MAX, UNIX_MIN,
};
use crate::error::Error;
use crate::parse::str_eq;

verus! {

/// How often a schedule repeats.
#[derive(Clone, Copy, Debug, PartialEq, Eq, Structural)]
pub enum Frequency {
    Daily,
    Weekly,
    Monthly,
    Yearly,
}

/// The walk step of a frequency, in days. The monthly and yearly steps are
/// fixed approximations of a month and a year.
pub open spec fn step_days(f: Frequency) -> int {
    match f {
        Frequency::Daily => 1,
        Frequency::Weekly => 7,
        Frequency::Monthly => 28,
        Frequency::Yearly => 364,
    }
}

/// Report the walk step of a frequency, in days.
pub fn frequency_step_days(f: &Frequency) -> (r: u32)
    ensures
        r as int == step_days(*f),
        1 <= r <= 364,
{
    match f {
        Frequency::Daily => 1,
        Frequency::Weekly => 7,
        Frequency::Monthly => 28,
        Frequency::Yearly => 364,
    }
}

/// The frequency a recurrence-rule text names, if any.
pub open spec fn freq_of_text(s: Seq<char>) -> Option<Frequency> {
    if s == "DAILY"@ {
        Some(Frequency::Daily)
    } else if s == "WEEKLY"@ {
        Some(Frequency::Weekly)
    } else if s == "MONTHLY"@ {
        Some(Frequency::Monthly)
    } else if s == "YEARLY"@ {
        Some(Frequency::Yearly)
    } else {
        None
    }
}

/// Parse a recurrence-rule frequency. Exactly the four supported names are
/// accepted; anything else is an invalid-input error.
pub fn parse_frequency(s: &str) -> (r: Result<Frequency, Error>)
    ensures
        r matches Ok(f) ==> freq_of_text(s@) == Some(f),
        r is Err <==> freq_of_text(s@) is None,
        r matches Err(e) ==> e == Error::InvalidFrequency,
{
    if str_eq(s, "DAILY") {
        Ok(Frequency::Daily)
    } else if str_eq(s, "WEEKLY") {
        Ok(Frequency::Weekly)
    } else if str_eq(s, "MONTHLY") {
        Ok(Frequency::Monthly)
    } else if str_eq(s, "YEARLY") {
        Ok(Frequency::Yearly)
    } else {
        Err(Error::InvalidFrequency)
    }
}

/// Where a local calendar representation stands relative to a target month.
#[derive(Clone, Copy, Debug, PartialEq, Eq, Structural)]
pub enum MonthClass {
    /// Strictly before the target month.
    Before,
    /// Inside the target month.
    InMonth,
    /// Strictly past the target month.
    After,
}

/// Classify local calendar fields against a target year and month.
pub open spec fn classify(local: (int, int, int, int, int, int), ty: int, tm: int) -> MonthClass {
    if local.0 < ty || (local.0 == ty && local.1 < tm) {
        MonthClass::Before
    } else if local.0 == ty && local.1 == tm {
        MonthClass::InMonth
    } else {
        MonthClass::After
    }
}

/// The occurrence instants the bounded walk yields from position `pos` on,
/// having already accumulated `count` occurrences.
///
/// Each position is classified by its local calendar month (`civil_of` at
/// offset `off`): an in-month position is accumulated and the walk steps on,
/// stopping at five occurrences in all; a position past the month stops the
/// walk; a position before the month is skipped, unless something was
/// already accumulated or the position has passed `bound` (the instant of
/// the target month's first local midnight), both of which only happen once
/// the month is over.
pub open spec fn expand_walk(
    pos: int,
    step: int,
    ty: int,
    tm: int,
    off: int,
    bound: int,
    count: int,
) -> Seq<int>
    decreases (if pos <= bound { bound + step - pos } else { 0 }), (5 - count),
{
    if step < 1 || count < 0 || count >= 5 {
        Seq::empty()
    } else {
        let cls = classify(civil_of(pos + off), ty, tm);
        if cls is InMonth {
            if count == 4 {
                seq![pos]
            } else {
                seq![pos] + expand_walk(pos + step, step, ty, tm, off, bound, count + 1)
            }
        } else if cls is After {
            Seq::empty()
        } else {
            if count > 0 || pos > bound {
                Seq::empty()
            } else {
                expand_walk(pos + step, step, ty, tm, off, bound, count)
            }
        }
    }
}

/// The walk yields at most five occurrences beyond what was already
/// accumulated, all inside the target month, each at or after the walk's
/// position, in strictly increasing order.
pub proof fn lemma_expand_walk_props(
    pos: int,
    step: int,
    ty: int,
    tm: int,
    off: int,
    bound: int,
    count: int,
)
    ensures
        expand_walk(pos, step, ty, tm, off, bound, count).len() + count <= 5 || count > 5,
        forall|i: int|
            0 <= i < expand_walk(pos, step, ty, tm, off, bound, count).len() ==> classify(
                civil_of(#[trigger] expand_walk(pos, step, ty, tm, off, bound, count)[i] + off),
                ty,
                tm,
            ) is InMonth,
        forall|i: int|
            0 <= i < expand_walk(pos, step, ty, tm, off, bound, count).len()
                ==> #[trigger] expand_walk(pos, step, ty, tm, off, bound, count)[i] >= pos,
        forall|i: int, j: int|
            0 <= i < j < expand_walk(pos, step, ty, tm, off, bound, count).len()
                ==> #[trigger] expand_walk(pos, step, ty, tm, off, bound, count)[i]
                < #[trigger] expand_walk(pos, step, ty, tm, off, bound, count)[j],
        forall|i: int|
            0 <= i < expand_walk(pos, step, ty, tm, off, bound, count).len()
                ==> #[trigger] expand_walk(pos, step, ty, tm, off, bound, count)[i] <= (if pos
                >= bound + step {
                pos
            } else {
                bound + step
            }) + (4 - count) * step,
    decreases (if pos <= bound { bound + step - pos } else { 0 }), (5 - count),
{
    let w = expand_walk(pos, step, ty, tm, off, bound, count);
    if step < 1 || count < 0 || count >= 5 {
    } else {
        let cls = classify(civil_of(pos + off), ty, tm);
        assert((4 - count) * step >= 0) by (nonlinear_arith)
            requires
                count <= 4,
                step >= 1,
        ;
        if cls is InMonth {
            if count == 4 {
            } else {
                lemma_expand_walk_props(pos + step, step, ty, tm, off, bound, count + 1);
                let tail = expand_walk(pos + step, step, ty, tm, off, bound, count + 1);
                assert(step + (4 - (count + 1)) * step == (4 - count) * step) by (nonlinear_arith);
                assert forall|i: int| 0 <= i < w.len() implies classify(
                    civil_of(#[trigger] w[i] + off),
                    ty,
                    tm,
                ) is InMonth by {
                    if i > 0 {
                        assert(w[i] == tail[i - 1]);
                    }
                }
                assert forall|i: int| 0 <= i < w.len() implies #[trigger] w[i] >= pos by {
                    if i > 0 {
                        assert(w[i] == tail[i - 1]);
                    }
                }
                assert forall|i: int, j: int| 0 <= i < j < w.len() implies #[trigger] w[i]
                    < #[trigger] w[j] by {
                    if i > 0 {
                        assert(w[i] == tail[i - 1]);
                    }
                    assert(w[j] == tail[j - 1]);
                }
                assert forall|i: int| 0 <= i < w.len() implies #[trigger] w[i] <= (if pos >= bound
                    + step {
                    pos
                } else {
                    bound + step
                }) + (4 - count) * step by {
                    if i > 0 {
                        assert(w[i] == tail[i - 1]);
                    }
                }
            }
        } else if cls is After {
        } else {
            if count > 0 || pos > bound {
            } else {
                lemma_expand_walk_props(pos + step, step, ty, tm, off, bound, count);
            }
        }
    }
}

/// Expand a schedule's recurrence into every occurrence instant whose local
/// calendar month is the requested one, at most five of them.
///
/// `start` is the schedule's anchor: its start day at its start time, read
/// in the schedule's own offset. The result instants are Unix seconds; the
/// walk itself is the bounded forward walk of [`expand_walk`], so the
/// function always terminates, however far the anchor lies from the target.
/// The only failure is an instant outside the supported calendar range,
/// which cannot happen while both years stay below 9900.
pub fn expand_occurrences(
    start: &Civil,
    offset_seconds: i32,
    freq: &Frequency,
    target_year: i32,
    target_month: u8,
) -> (r: Result<Vec<i64>, Error>)
    requires
        valid_civil(*start),
        -OFFSET_MAX <= offset_seconds <= OFFSET_MAX,
        0 <= target_year <= 9999,
        1 <= target_month <= 12,
    ensures
        r matches Ok(v) ==> v@.map_values(|x: i64| x as int) == expand_walk(
            unix_of(start.year as int, start.month as int, start.day as int, start.hour as int, start.minute as int, start.second as int) - offset_seconds,
            step_days(*freq) * 86400,
            target_year as int,
            target_month as int,
            offset_seconds as int,
            unix_of(target_year as int, target_month as int, 1, 0, 0, 0) - offset_seconds,
            0,
        ),
        r matches Ok(v) ==> v@.len() <= 5,
        r matches Ok(v) ==> forall|i: int|
            0 <= i < v@.len() ==> classify(
                civil_of(#[trigger] v@[i] + offset_seconds),
                target_year as int,
                target_month as int,
            ) is InMonth,
        r matches Ok(v) ==> forall|i: int, j: int|
            0 <= i < j < v@.len() ==> v@[i] < v@[j],
        r matches Err(e) ==> e == Error::TimeOutOfRange,
        0 <= start.year <= 9899 && target_year <= 9899 ==> r is Ok,
        0 <= start.year <= 9899 && target_year <= 9899 ==> (r matches Ok(v) ==> forall|i: int| 0 <= i < v@.len() ==> UNIX_MIN + 2500000000 <= #[trigger] v@[i] <= UNIX_MAX - 2500000000),
        r matches Ok(v) ==> forall|i: int| 0 <= i < v@.len() ==> UNIX_MIN - OFFSET_MAX <= #[trigger] v@[i] <= UNIX_MAX + OFFSET_MAX + 157248000,
{
    let anchor: i64 = match civil_to_unix(start, offset_seconds) {
        Some(t) => t,
        None => {
            proof {
                assert(false);
            }
            return Err(Error::TimeOutOfRange);
        },
    };
    let first_of_month = Civil {
        year: target_year,
        month: target_month,
        day: 1,
        hour: 0,
        minute: 0,
        second: 0,
    };
    let bound: i64 = match civil_to_unix(&first_of_month, offset_seconds) {
        Some(t) => t,
        None => {
            proof {
                assert(false);
            }
            return Err(Error::TimeOutOfRange);
        },
    };
    let step_s: i64 = frequency_step_days(freq) as i64 * 86400;
    let ghost gstep: int = step_days(*freq) * 86400;
    let ghost gty: int = target_year as int;
    let ghost gtm: int = target_month as int;
    let ghost goff: int = offset_seconds as int;
    let ghost m_top: int = if anchor >= bound {
        anchor as int
    } else {
        bound as int
    };
    let ghost safe: bool = 0 <= start.year <= 9899 && target_year <= 9899;
    let mut found: Vec<i64> = Vec::new();
    let mut pos: i64 = anchor;
    loop
        invariant_except_break
            pos <= m_top + (found@.len() + 1) * gstep,
            found@.len() <= 4,
        invariant
            1 <= step_days(*freq) <= 364,
            step_s == gstep,
            gstep == step_days(*freq) * 86400,
            UNIX_MIN - OFFSET_MAX <= anchor <= UNIX_MAX + OFFSET_MAX,
            UNIX_MIN - OFFSET_MAX <= bound <= UNIX_MAX + OFFSET_MAX,
            anchor <= pos,
            m_top == if anchor >= bound {
                anchor as int
            } else {
                bound as int
            },
            -OFFSET_MAX <= offset_seconds <= OFFSET_MAX,
            safe == (0 <= start.year <= 9899 && target_year <= 9899),
            safe ==> UNIX_MIN + 3000000000 <= anchor + goff <= UNIX_MAX - 3000000000,
            safe ==> UNIX_MIN + 3000000000 <= bound + goff <= UNIX_MAX - 3000000000,
            goff == offset_seconds as int,
            gty == target_year as int,
            gtm == target_month as int,
            expand_walk(anchor as int, gstep, gty, gtm, goff, bound as int, 0) == found@.map_values(
                |x: i64| x as int,
            ) + expand_walk(pos as int, gstep, gty, gtm, goff, bound as int, found@.len() as int),
        ensures
            expand_walk(anchor as int, gstep, gty, gtm, goff, bound as int, 0) == found@.map_values(
                |x: i64| x as int,
            ),
        decreases (if pos <= bound {
            bound + gstep - pos
        } else {
            0
        }), (5 - found@.len()),
    {
        let local: Civil = match unix_to_civil(pos, offset_seconds) {
            Some(c) => c,
            None => {
                proof {
                    if safe {
                        assert((found@.len() + 1) * gstep <= 5 * gstep) by (nonlinear_arith)
                            requires
                                found@.len() <= 4,
                                gstep >= 1,
                        ;
                        assert(pos as int <= m_top + 5 * gstep);
                        assert(gstep <= 364 * 86400);
                        assert(UNIX_MIN + 200000 <= pos <= UNIX_MAX - 200000);
                    }
                }
                return Err(Error::TimeOutOfRange);
            },
        };
        let ghost cls = classify(civil_of(pos + goff), gty, gtm);
        proof {
            assert(civil_fields(local) == civil_of(pos + goff));
        }
        if local.year == target_year && local.month as i32 == target_month as i32 {
            proof {
                assert(cls is InMonth);
            }
            let ghost prev = found@;
            found.push(pos);
            proof {
                assert(found@.map_values(|x: i64| x as int) =~= prev.map_values(|x: i64| x as int)
                    + seq![pos as int]);
            }
            if found.len() == 5 {
                proof {
                    assert(expand_walk(pos as int, gstep, gty, gtm, goff, bound as int, 4)
                        =~= seq![pos as int]);
                    assert(expand_walk(anchor as int, gstep, gty, gtm, goff, bound as int, 0)
                        =~= found@.map_values(|x: i64| x as int));
                }
                break;
            }
            proof {
                assert(expand_walk(pos as int, gstep, gty, gtm, goff, bound as int, prev.len() as int)
                    =~= seq![pos as int] + expand_walk(
                    pos + gstep,
                    gstep,
                    gty,
                    gtm,
                    goff,
                    bound as int,
                    prev.len() as int + 1,
                ));
                assert(expand_walk(anchor as int, gstep, gty, gtm, goff, bound as int, 0)
                    =~= found@.map_values(|x: i64| x as int) + expand_walk(
                    pos + gstep,
                    gstep,
                    gty,
                    gtm,
                    goff,
                    bound as int,
                    found@.len() as int,
                ));
            }
            proof {
                let l: int = found@.len() as int;
                assert((l + 1) * gstep == l * gstep + gstep) by (nonlinear_arith);
                assert(l * gstep >= gstep) by (nonlinear_arith)
                    requires
                        l >= 1,
                        gstep >= 0,
                ;
            }
            pos = pos + step_s;
        } else if local.year > target_year || (local.year == target_year && local.month as i32
            > target_month as i32) {
            proof {
                assert(cls is After);
                assert(expand_walk(pos as int, gstep, gty, gtm, goff, bound as int, found@.len() as int)
                    =~= Seq::<int>::empty());
                assert(expand_walk(anchor as int, gstep, gty, gtm, goff, bound as int, 0)
                    =~= found@.map_values(|x: i64| x as int));
            }
            break;
        } else {
            proof {
                assert(cls is Before);
            }
            if found.len() > 0 || pos > bound {
                proof {
                    assert(expand_walk(pos as int, gstep, gty, gtm, goff, bound as int, found@.len() as int)
                        =~= Seq::<int>::empty());
                    assert(expand_walk(anchor as int, gstep, gty, gtm, goff, bound as int, 0)
                        =~= found@.map_values(|x: i64| x as int));
                }
                break;
            }
            proof {
                let l: int = found@.len() as int;
                assert((l + 1) * gstep == l * gstep + gstep) by (nonlinear_arith);
                assert(l * gstep >= 0) by (nonlinear_arith)
                    requires
                        l >= 0,
                        gstep >= 0,
                ;
            }
            pos = pos + step_s;
        }
    }
    proof {
        lemma_expand_walk_props(anchor as int, gstep, gty, gtm, goff, bound as int, 0);
        assert(forall|i: int|
            0 <= i < found@.len() ==> found@.map_values(|x: i64| x as int)[i] == found@[i] as int);
        if safe {
            assert forall|i: int| 0 <= i < found@.len() implies UNIX_MIN + 2500000000
                <= #[trigger] found@[i] <= UNIX_MAX - 2500000000 by {
                let w = expand_walk(anchor as int, gstep, gty, gtm, goff, bound as int, 0);
                assert(w[i] == found@[i] as int);
                assert(w[i] >= anchor as int);
                assert(w[i] <= (if anchor as int >= bound as int + gstep {
                    anchor as int
                } else {
                    bound as int + gstep
                }) + 4 * gstep);
            }
        }
        assert forall|i: int| 0 <= i < found@.len() implies UNIX_MIN - OFFSET_MAX
            <= #[trigger] found@[i] <= UNIX_MAX + OFFSET_MAX + 157248000 by {
            let w = expand_walk(anchor as int, gstep, gty, gtm, goff, bound as int, 0);
            assert(w[i] == found@[i] as int);
            assert(w[i] >= anchor as int);
            assert(w[i] <= (if anchor as int >= bound as int + gstep {
                anchor as int
            } else {
                bound as int + gstep
            }) + 4 * gstep);
        }
    }
    Ok(found)
}

} // verus!
