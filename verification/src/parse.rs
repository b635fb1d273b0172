//! Verified parsers for the textual formats the external store uses.
//!
//! The store serializes dates as `YYYY-MM-DD`, wall-clock times as
//! `HH:MM:SS` with an optional `.0` fraction, and booking instants as
//! `YYYY-MM-DD HH:MM:SS.f +HH:MM:SS` (explicit signed offset). Each parser's
//! contract pins down exactly which texts are accepted and which value an
//! accepted text denotes.

use vstd::prelude::*;
use vstd::string::StrSliceExecFns;

use crate::civil::{days_in_month, valid_date, valid_time, Civil};
use crate::error::Error;

verus! {

/// `c` is a decimal digit.
pub open spec fn is_digit(c: char) -> bool {
    48 <= c as int <= 57
}

/// The value of the decimal digit `c`.
pub open spec fn digit_val(c: char) -> int {
    c as int - 48
}

/// Every character of `s` is a decimal digit.
pub open spec fn all_digits(s: Seq<char>) -> bool {
    forall|i: int| 0 <= i < s.len() ==> is_digit(s[i])
}

/// The value of `s` read as a decimal numeral, most significant digit first.
pub open spec fn dec_val(s: Seq<char>) -> int
    decreases s.len(),
{
    if s.len() == 0 {
        0
    } else {
        dec_val(s.drop_last()) * 10 + digit_val(s.last())
    }
}

/// Ten to the `n`-th power.
pub open spec fn pow10(n: nat) -> int
    decreases n,
{
    if n == 0 {
        1
    } else {
        10 * pow10((n - 1) as nat)
    }
}

/// A digit string's value is non-negative and below ten to its length.
pub proof fn lemma_dec_val_bounds(s: Seq<char>)
    requires
        all_digits(s),
    ensures
        0 <= dec_val(s) < pow10(s.len()),
    decreases s.len(),
{
    if s.len() > 0 {
        assert(all_digits(s.drop_last()));
        lemma_dec_val_bounds(s.drop_last());
        assert(is_digit(s.last()));
    }
}

/// Read the decimal number written at `s[from..to]`, refusing any
/// non-digit character.
pub fn read_number(s: &str, from: usize, to: usize) -> (r: Option<u32>)
    requires
        from <= to <= s@.len(),
        to - from <= 4,
    ensures
        r is Some <==> all_digits(s@.subrange(from as int, to as int)),
        r matches Some(v) ==> v as int == dec_val(s@.subrange(from as int, to as int)),
        r matches Some(v) ==> v < 10000,
{
    let mut i: usize = from;
    let mut acc: u32 = 0;
    while i < to
        invariant
            from <= i <= to <= s@.len(),
            to - from <= 4,
            all_digits(s@.subrange(from as int, i as int)),
            acc as int == dec_val(s@.subrange(from as int, i as int)),
        decreases to - i,
    {
        let c = s.get_char(i);
        let v = c as u32;
        if v < 48 || v > 57 {
            proof {
                assert(s@.subrange(from as int, to as int)[i - from] == s@[i as int]);
            }
            return None;
        }
        proof {
            lemma_dec_val_bounds(s@.subrange(from as int, i as int));
            assert(pow10(0) == 1);
            assert(pow10(1) == 10);
            assert(pow10(2) == 100);
            assert(pow10(3) == 1000);
            assert(s@.subrange(from as int, (i + 1) as int).drop_last() =~= s@.subrange(
                from as int,
                i as int,
            ));
            assert(s@.subrange(from as int, (i + 1) as int).last() == s@[i as int]);
        }
        acc = acc * 10 + (v - 48);
        i = i + 1;
    }
    proof {
        lemma_dec_val_bounds(s@.subrange(from as int, to as int));
        assert(pow10(0) == 1);
        assert(pow10(1) == 10);
        assert(pow10(2) == 100);
        assert(pow10(3) == 1000);
        assert(pow10(4) == 10000);
    }
    Some(acc)
}

/// Decide whether two strings hold the same characters.
pub fn str_eq(a: &str, b: &str) -> (r: bool)
    ensures
        r == (a@ == b@),
{
    let la = a.unicode_len();
    let lb = b.unicode_len();
    if la != lb {
        return false;
    }
    let mut i: usize = 0;
    while i < la
        invariant
            0 <= i <= la,
            la == a@.len(),
            la == b@.len(),
            forall|j: int| 0 <= j < i ==> a@[j] == b@[j],
        decreases la - i,
    {
        if a.get_char(i) != b.get_char(i) {
            assert(a@[i as int] != b@[i as int]);
            return false;
        }
        i = i + 1;
    }
    proof {
        assert(a@ =~= b@);
    }
    true
}

/// `s` has the shape `YYYY-MM-DD`.
pub open spec fn date_text_ok(s: Seq<char>) -> bool {
    &&& s.len() == 10
    &&& all_digits(s.subrange(0, 4))
    &&& s[4] == '-'
    &&& all_digits(s.subrange(5, 7))
    &&& s[7] == '-'
    &&& all_digits(s.subrange(8, 10))
}

/// The calendar day written in a `YYYY-MM-DD` text, at midnight.
pub open spec fn date_of_text(s: Seq<char>) -> Civil {
    Civil {
        year: dec_val(s.subrange(0, 4)) as i32,
        month: dec_val(s.subrange(5, 7)) as u8,
        day: dec_val(s.subrange(8, 10)) as u8,
        hour: 0,
        minute: 0,
        second: 0,
    }
}

/// Parse a `YYYY-MM-DD` text into the calendar day it names, at midnight.
/// Rejected texts are exactly those that are malformed or name no real
/// Gregorian day.
pub fn parse_date(s: &str) -> (r: Result<Civil, Error>)
    ensures
        r is Ok <==> date_text_ok(s@) && valid_date(date_of_text(s@)),
        r matches Ok(c) ==> c == date_of_text(s@) && valid_date(c) && valid_time(c) && 0 <= c.year,
        r matches Err(e) ==> e == Error::InvalidDate,
{
    if s.unicode_len() != 10 {
        return Err(Error::InvalidDate);
    }
    if s.get_char(4) != '-' || s.get_char(7) != '-' {
        return Err(Error::InvalidDate);
    }
    let year = match read_number(s, 0, 4) {
        Some(v) => v,
        None => return Err(Error::InvalidDate),
    };
    let month = match read_number(s, 5, 7) {
        Some(v) => v,
        None => return Err(Error::InvalidDate),
    };
    let day = match read_number(s, 8, 10) {
        Some(v) => v,
        None => return Err(Error::InvalidDate),
    };
    proof {
        lemma_dec_val_bounds(s@.subrange(5, 7));
        lemma_dec_val_bounds(s@.subrange(8, 10));
        assert(pow10(0) == 1);
        assert(pow10(1) == 10);
        assert(pow10(2) == 100);
    }
    if month < 1 || month > 12 {
        return Err(Error::InvalidDate);
    }
    if day < 1 || day > month_length_u32(year, month) {
        return Err(Error::InvalidDate);
    }
    Ok(Civil {
        year: year as i32,
        month: month as u8,
        day: day as u8,
        hour: 0,
        minute: 0,
        second: 0,
    })
}

/// The number of days in a month, on `u32` components.
fn month_length_u32(y: u32, m: u32) -> (r: u32)
    requires
        y <= 9999,
        1 <= m <= 12,
    ensures
        r as int == days_in_month(y as int, m as int),
{
    crate::civil::month_length(y as i32, m as u8) as u32
}

/// `s` has the shape `HH:MM:SS`.
pub open spec fn time_core_ok(s: Seq<char>) -> bool {
    &&& s.len() == 8
    &&& all_digits(s.subrange(0, 2))
    &&& s[2] == ':'
    &&& all_digits(s.subrange(3, 5))
    &&& s[5] == ':'
    &&& all_digits(s.subrange(6, 8))
}

/// `s` has the shape `HH:MM:SS`, optionally followed by the store's `.0`
/// zero fraction.
pub open spec fn time_text_ok(s: Seq<char>) -> bool {
    ||| time_core_ok(s)
    ||| (s.len() == 10 && time_core_ok(s.subrange(0, 8)) && s[8] == '.' && s[9] == '0')
}

/// The seconds since midnight written in the first eight characters of a
/// wall-clock time text.
pub open spec fn tod_of_text(s: Seq<char>) -> int {
    dec_val(s.subrange(0, 2)) * 3600 + dec_val(s.subrange(3, 5)) * 60 + dec_val(s.subrange(6, 8))
}

/// Whether the hour, minute and second fields of a time text are in range.
pub open spec fn time_fields_ok(s: Seq<char>) -> bool {
    &&& dec_val(s.subrange(0, 2)) < 24
    &&& dec_val(s.subrange(3, 5)) < 60
    &&& dec_val(s.subrange(6, 8)) < 60
}

/// Parse a wall-clock time text into seconds since midnight. Rejected texts
/// are exactly the malformed ones and those naming no real time of day.
pub fn parse_time(s: &str) -> (r: Result<u32, Error>)
    ensures
        r is Ok <==> time_text_ok(s@) && time_fields_ok(if s@.len() == 10 {
            s@.subrange(0, 8)
        } else {
            s@
        }),
        r matches Ok(v) ==> v as int == tod_of_text(if s@.len() == 10 {
            s@.subrange(0, 8)
        } else {
            s@
        }) && v < 86400,
        r matches Err(e) ==> e == Error::InvalidTime,
{
    let len = s.unicode_len();
    if len != 8 && len != 10 {
        return Err(Error::InvalidTime);
    }
    if len == 10 && (s.get_char(8) != '.' || s.get_char(9) != '0') {
        return Err(Error::InvalidTime);
    }
    if s.get_char(2) != ':' || s.get_char(5) != ':' {
        proof {
            if s@.len() == 10 {
                assert(s@.subrange(0, 8)[2] == s@[2]);
                assert(s@.subrange(0, 8)[5] == s@[5]);
            }
        }
        return Err(Error::InvalidTime);
    }
    let hh = match read_number(s, 0, 2) {
        Some(v) => v,
        None => {
            proof {
                if s@.len() == 10 {
                    assert(s@.subrange(0, 8).subrange(0, 2) =~= s@.subrange(0, 2));
                }
            }
            return Err(Error::InvalidTime);
        },
    };
    let mm = match read_number(s, 3, 5) {
        Some(v) => v,
        None => {
            proof {
                if s@.len() == 10 {
                    assert(s@.subrange(0, 8).subrange(3, 5) =~= s@.subrange(3, 5));
                }
            }
            return Err(Error::InvalidTime);
        },
    };
    let ss = match read_number(s, 6, 8) {
        Some(v) => v,
        None => {
            proof {
                if s@.len() == 10 {
                    assert(s@.subrange(0, 8).subrange(6, 8) =~= s@.subrange(6, 8));
                }
            }
            return Err(Error::InvalidTime);
        },
    };
    proof {
        if s@.len() == 10 {
            assert(s@.subrange(0, 8).subrange(0, 2) =~= s@.subrange(0, 2));
            assert(s@.subrange(0, 8).subrange(3, 5) =~= s@.subrange(3, 5));
            assert(s@.subrange(0, 8).subrange(6, 8) =~= s@.subrange(6, 8));
            assert(s@.subrange(0, 8)[2] == s@[2]);
            assert(s@.subrange(0, 8)[5] == s@[5]);
        }
    }
    if hh >= 24 || mm >= 60 || ss >= 60 {
        return Err(Error::InvalidTime);
    }
    Ok(hh * 3600 + mm * 60 + ss)
}

/// The index of the first non-digit character of `s` at or after `i`.
pub open spec fn digits_end(s: Seq<char>, i: int) -> int
    decreases s.len() - i,
{
    if i < s.len() && is_digit(s[i]) {
        digits_end(s, i + 1)
    } else {
        i
    }
}

/// `s` has the shape the store serializes booking instants in:
/// `YYYY-MM-DD HH:MM:SS.f +HH:MM:SS`, with one or more fraction digits and
/// an explicitly signed offset no wider than the calendar arithmetic allows.
pub open spec fn book_date_text_ok(s: Seq<char>) -> bool {
    let e = digits_end(s, 20);
    &&& s.len() >= 31
    &&& date_text_ok(s.subrange(0, 10))
    &&& s[10] == ' '
    &&& time_core_ok(s.subrange(11, 19))
    &&& s[19] == '.'
    &&& e > 20
    &&& s.len() == e + 10
    &&& s[e] == ' '
    &&& (s[e + 1] == '+' || s[e + 1] == '-')
    &&& all_digits(s.subrange(e + 2, e + 4))
    &&& s[e + 4] == ':'
    &&& all_digits(s.subrange(e + 5, e + 7))
    &&& s[e + 7] == ':'
    &&& all_digits(s.subrange(e + 8, e + 10))
    &&& dec_val(s.subrange(e + 2, e + 4)) <= 25
    &&& dec_val(s.subrange(e + 5, e + 7)) <= 59
    &&& dec_val(s.subrange(e + 8, e + 10)) <= 59
}

/// The wall clock written in a booking instant text, fraction and offset
/// dropped: bookings are re-expressed in the schedule's own offset before
/// any comparison, so only the civil fields matter.
pub open spec fn book_date_value(s: Seq<char>) -> Civil {
    Civil {
        year: dec_val(s.subrange(0, 4)) as i32,
        month: dec_val(s.subrange(5, 7)) as u8,
        day: dec_val(s.subrange(8, 10)) as u8,
        hour: dec_val(s.subrange(11, 13)) as u8,
        minute: dec_val(s.subrange(14, 16)) as u8,
        second: dec_val(s.subrange(17, 19)) as u8,
    }
}

/// `s` is a booking instant text naming a real calendar day and time.
pub open spec fn book_date_accepted(s: Seq<char>) -> bool {
    book_date_text_ok(s) && valid_date(book_date_value(s)) && valid_time(book_date_value(s))
}

/// Parse a stored booking instant into the wall clock it shows. The offset
/// suffix is validated and then dropped: the caller re-reads the wall clock
/// in the schedule's own offset.
pub fn parse_book_date(s: &str) -> (r: Result<Civil, Error>)
    ensures
        r is Ok <==> book_date_accepted(s@),
        r matches Ok(c) ==> c == book_date_value(s@) && valid_date(c) && valid_time(c),
        r matches Err(e) ==> e == Error::MalformedBookDate,
{
    let len = s.unicode_len();
    if len < 31 {
        return Err(Error::MalformedBookDate);
    }
    if s.get_char(4) != '-' || s.get_char(7) != '-' {
        proof {
            assert(s@.subrange(0, 10)[4] == s@[4]);
            assert(s@.subrange(0, 10)[7] == s@[7]);
        }
        return Err(Error::MalformedBookDate);
    }
    let year = match read_number(s, 0, 4) {
        Some(v) => v,
        None => {
            proof {
                assert(s@.subrange(0, 10).subrange(0, 4) =~= s@.subrange(0, 4));
            }
            return Err(Error::MalformedBookDate);
        },
    };
    let month = match read_number(s, 5, 7) {
        Some(v) => v,
        None => {
            proof {
                assert(s@.subrange(0, 10).subrange(5, 7) =~= s@.subrange(5, 7));
            }
            return Err(Error::MalformedBookDate);
        },
    };
    let day = match read_number(s, 8, 10) {
        Some(v) => v,
        None => {
            proof {
                assert(s@.subrange(0, 10).subrange(8, 10) =~= s@.subrange(8, 10));
            }
            return Err(Error::MalformedBookDate);
        },
    };
    if s.get_char(10) != ' ' {
        return Err(Error::MalformedBookDate);
    }
    if s.get_char(13) != ':' || s.get_char(16) != ':' {
        proof {
            assert(s@.subrange(11, 19)[2] == s@[13]);
            assert(s@.subrange(11, 19)[5] == s@[16]);
        }
        return Err(Error::MalformedBookDate);
    }
    let hh = match read_number(s, 11, 13) {
        Some(v) => v,
        None => {
            proof {
                assert(s@.subrange(11, 19).subrange(0, 2) =~= s@.subrange(11, 13));
            }
            return Err(Error::MalformedBookDate);
        },
    };
    let mm = match read_number(s, 14, 16) {
        Some(v) => v,
        None => {
            proof {
                assert(s@.subrange(11, 19).subrange(3, 5) =~= s@.subrange(14, 16));
            }
            return Err(Error::MalformedBookDate);
        },
    };
    let ss = match read_number(s, 17, 19) {
        Some(v) => v,
        None => {
            proof {
                assert(s@.subrange(11, 19).subrange(6, 8) =~= s@.subrange(17, 19));
            }
            return Err(Error::MalformedBookDate);
        },
    };
    if s.get_char(19) != '.' {
        return Err(Error::MalformedBookDate);
    }
    let mut i: usize = 20;
    loop
        invariant
            20 <= i <= len,
            len == s@.len(),
            digits_end(s@, 20) == digits_end(s@, i as int),
        ensures
            20 <= i <= len,
            digits_end(s@, 20) == i as int,
        decreases len - i,
    {
        if i >= len {
            break;
        }
        let c = s.get_char(i);
        let v = c as u32;
        if v < 48 || v > 57 {
            break;
        }
        i = i + 1;
    }
    let e = i;
    if e == 20 || len - e != 10 {
        return Err(Error::MalformedBookDate);
    }
    if s.get_char(e) != ' ' {
        return Err(Error::MalformedBookDate);
    }
    let sign = s.get_char(e + 1);
    if sign != '+' && sign != '-' {
        return Err(Error::MalformedBookDate);
    }
    let oh = match read_number(s, e + 2, e + 4) {
        Some(v) => v,
        None => return Err(Error::MalformedBookDate),
    };
    if s.get_char(e + 4) != ':' {
        return Err(Error::MalformedBookDate);
    }
    let om = match read_number(s, e + 5, e + 7) {
        Some(v) => v,
        None => return Err(Error::MalformedBookDate),
    };
    if s.get_char(e + 7) != ':' {
        return Err(Error::MalformedBookDate);
    }
    let os = match read_number(s, e + 8, e + 10) {
        Some(v) => v,
        None => return Err(Error::MalformedBookDate),
    };
    if oh > 25 || om > 59 || os > 59 {
        return Err(Error::MalformedBookDate);
    }
    proof {
        lemma_dec_val_bounds(s@.subrange(0, 4));
        lemma_dec_val_bounds(s@.subrange(5, 7));
        lemma_dec_val_bounds(s@.subrange(8, 10));
        lemma_dec_val_bounds(s@.subrange(11, 13));
        lemma_dec_val_bounds(s@.subrange(14, 16));
        lemma_dec_val_bounds(s@.subrange(17, 19));
        assert(pow10(0) == 1);
        assert(pow10(1) == 10);
        assert(pow10(2) == 100);
        assert(pow10(3) == 1000);
        assert(pow10(4) == 10000);
        assert(s@.subrange(0, 10).subrange(0, 4) =~= s@.subrange(0, 4));
        assert(s@.subrange(0, 10).subrange(5, 7) =~= s@.subrange(5, 7));
        assert(s@.subrange(0, 10).subrange(8, 10) =~= s@.subrange(8, 10));
        assert(s@.subrange(0, 10)[4] == s@[4]);
        assert(s@.subrange(0, 10)[7] == s@[7]);
        assert(s@.subrange(11, 19).subrange(0, 2) =~= s@.subrange(11, 13));
        assert(s@.subrange(11, 19).subrange(3, 5) =~= s@.subrange(14, 16));
        assert(s@.subrange(11, 19).subrange(6, 8) =~= s@.subrange(17, 19));
        assert(s@.subrange(11, 19)[2] == s@[13]);
        assert(s@.subrange(11, 19)[5] == s@[16]);
    }
    if month < 1 || month > 12 {
        return Err(Error::MalformedBookDate);
    }
    if day < 1 || day > month_length_u32(year, month) {
        return Err(Error::MalformedBookDate);
    }
    if hh >= 24 || mm >= 60 || ss >= 60 {
        return Err(Error::MalformedBookDate);
    }
    Ok(Civil {
        year: year as i32,
        month: month as u8,
        day: day as u8,
        hour: hh as u8,
        minute: mm as u8,
        second: ss as u8,
    })
}

} // verus!
