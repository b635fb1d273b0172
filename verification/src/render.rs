//! Verified serialization of dates and times into the store's fixed
//! textual profile: `YYYY-MM-DD` days, `HH:MM:SS` wall-clock times, and
//! the full `YYYY-MM-DD HH:MM:SS.0 +00:00:00` booking instant. Each
//! formatter's contract gives the exact character sequence it emits, and
//! the round-trip lemma at the bottom shows that a formatted booking
//! instant parses back to the same wall clock.

use vstd::prelude::*;
use vstd::string::StringExecFns;
use vstd::arithmetic::div_mod::lemma_fundamental_div_mod;

use crate::civil::{valid_date, valid_time, Civil};
use crate::parse::{
    all_digits, book_date_accepted, book_date_value, dec_val, digit_val, digits_end, is_digit,
};

verus! {

/// The character of one decimal digit.
pub open spec fn digit_char(d: int) -> char {
    if d == 0 {
        '0'
    } else if d == 1 {
        '1'
    } else if d == 2 {
        '2'
    } else if d == 3 {
        '3'
    } else if d == 4 {
        '4'
    } else if d == 5 {
        '5'
    } else if d == 6 {
        '6'
    } else if d == 7 {
        '7'
    } else if d == 8 {
        '8'
    } else {
        '9'
    }
}

/// A number below one hundred, written with two digits.
pub open spec fn pad2(v: int) -> Seq<char> {
    seq![digit_char(v / 10), digit_char(v % 10)]
}

/// A number below ten thousand, written with four digits.
pub open spec fn pad4(v: int) -> Seq<char> {
    seq![
        digit_char(v / 1000),
        digit_char((v / 100) % 10),
        digit_char((v / 10) % 10),
        digit_char(v % 10),
    ]
}

/// The `YYYY-MM-DD` text of a civil value's calendar day.
pub open spec fn date_text_of(c: Civil) -> Seq<char> {
    pad4(c.year as int) + seq!['-'] + pad2(c.month as int) + seq!['-'] + pad2(c.day as int)
}

/// The `HH:MM:SS` text of a civil value's wall-clock time.
pub open spec fn time_text_of(c: Civil) -> Seq<char> {
    pad2(c.hour as int) + seq![':'] + pad2(c.minute as int) + seq![':'] + pad2(c.second as int)
}

/// The full booking-instant text of a civil value, with a zero fraction
/// and an explicit zero offset, as the store serializes it.
pub open spec fn store_text_of(c: Civil) -> Seq<char> {
    date_text_of(c) + seq![' '] + time_text_of(c) + seq!['.', '0', ' ', '+', '0', '0', ':', '0', '0', ':', '0', '0']
}

/// Append one decimal digit.
fn push_digit(out: &mut String, d: u32)
    requires
        d <= 9,
    ensures
        final(out)@ == old(out)@ + seq![digit_char(d as int)],
{
    proof {
        reveal_strlit("0");
        reveal_strlit("1");
        reveal_strlit("2");
        reveal_strlit("3");
        reveal_strlit("4");
        reveal_strlit("5");
        reveal_strlit("6");
        reveal_strlit("7");
        reveal_strlit("8");
        reveal_strlit("9");
    }
    match d {
        0 => out.append("0"),
        1 => out.append("1"),
        2 => out.append("2"),
        3 => out.append("3"),
        4 => out.append("4"),
        5 => out.append("5"),
        6 => out.append("6"),
        7 => out.append("7"),
        8 => out.append("8"),
        _ => out.append("9"),
    }
    proof {
        assert(final(out)@ =~= old(out)@ + seq![digit_char(d as int)]);
    }
}

/// Append a number below one hundred with two digits.
fn push2(out: &mut String, v: u32)
    requires
        v < 100,
    ensures
        final(out)@ == old(out)@ + pad2(v as int),
{
    push_digit(out, v / 10);
    push_digit(out, v % 10);
    proof {
        assert(final(out)@ =~= old(out)@ + pad2(v as int));
    }
}

/// Append a number below ten thousand with four digits.
fn push4(out: &mut String, v: u32)
    requires
        v < 10000,
    ensures
        final(out)@ == old(out)@ + pad4(v as int),
{
    push_digit(out, v / 1000);
    push_digit(out, (v / 100) % 10);
    push_digit(out, (v / 10) % 10);
    push_digit(out, v % 10);
    proof {
        assert(final(out)@ =~= old(out)@ + pad4(v as int));
    }
}

/// Write a civil value's calendar day as `YYYY-MM-DD`.
pub fn format_date_text(c: &Civil) -> (r: String)
    requires
        0 <= c.year <= 9999,
        c.month <= 99,
        c.day <= 99,
    ensures
        r@ == date_text_of(*c),
{
    let mut out = String::new();
    push4(&mut out, c.year as u32);
    proof {
        reveal_strlit("-");
    }
    out.append("-");
    push2(&mut out, c.month as u32);
    out.append("-");
    push2(&mut out, c.day as u32);
    proof {
        assert(out@ =~= date_text_of(*c));
    }
    out
}

/// Write a civil value's wall-clock time as `HH:MM:SS`.
pub fn format_time_text(c: &Civil) -> (r: String)
    requires
        c.hour <= 99,
        c.minute <= 99,
        c.second <= 99,
    ensures
        r@ == time_text_of(*c),
{
    let mut out = String::new();
    push2(&mut out, c.hour as u32);
    proof {
        reveal_strlit(":");
    }
    out.append(":");
    push2(&mut out, c.minute as u32);
    out.append(":");
    push2(&mut out, c.second as u32);
    proof {
        assert(out@ =~= time_text_of(*c));
    }
    out
}

/// Write a civil value as the store's booking-instant text, fraction zero
/// and offset zero.
pub fn format_store_datetime(c: &Civil) -> (r: String)
    requires
        0 <= c.year <= 9999,
        c.month <= 99,
        c.day <= 99,
        c.hour <= 99,
        c.minute <= 99,
        c.second <= 99,
    ensures
        r@ == store_text_of(*c),
{
    let mut out = format_date_text(c);
    proof {
        reveal_strlit(" ");
    }
    out.append(" ");
    let time = format_time_text(c);
    out.append(time.as_str());
    proof {
        reveal_strlit(".0 +00:00:00");
    }
    out.append(".0 +00:00:00");
    proof {
        assert(out@ =~= store_text_of(*c));
    }
    out
}

/// Two digits read back as the number they were written from.
proof fn lemma_pad2_val(v: int)
    requires
        0 <= v < 100,
    ensures
        all_digits(pad2(v)),
        pad2(v).len() == 2,
        dec_val(pad2(v)) == v,
{
    let s = pad2(v);
    assert(is_digit(digit_char(v / 10)));
    assert(is_digit(digit_char(v % 10)));
    assert(s.drop_last() =~= seq![digit_char(v / 10)]);
    assert(s.drop_last().drop_last() =~= Seq::<char>::empty());
    assert(digit_val(digit_char(v / 10)) == v / 10);
    assert(digit_val(digit_char(v % 10)) == v % 10);
    assert(dec_val(Seq::<char>::empty()) == 0);
    assert(dec_val(s.drop_last()) == digit_val(digit_char(v / 10)));
    assert(dec_val(s) == dec_val(s.drop_last()) * 10 + digit_val(s.last()));
    lemma_fundamental_div_mod(v, 10);
    assert(dec_val(s) == v);
}

/// Four digits read back as the number they were written from.
proof fn lemma_pad4_val(v: int)
    requires
        0 <= v < 10000,
    ensures
        all_digits(pad4(v)),
        pad4(v).len() == 4,
        dec_val(pad4(v)) == v,
{
    let s = pad4(v);
    assert(is_digit(digit_char(v / 1000)));
    assert(is_digit(digit_char((v / 100) % 10)));
    assert(is_digit(digit_char((v / 10) % 10)));
    assert(is_digit(digit_char(v % 10)));
    assert(s.drop_last() =~= seq![
        digit_char(v / 1000),
        digit_char((v / 100) % 10),
        digit_char((v / 10) % 10),
    ]);
    assert(s.drop_last().drop_last() =~= seq![digit_char(v / 1000), digit_char((v / 100) % 10)]);
    assert(s.drop_last().drop_last().drop_last() =~= seq![digit_char(v / 1000)]);
    assert(s.drop_last().drop_last().drop_last().drop_last() =~= Seq::<char>::empty());
    assert(digit_val(digit_char(v / 1000)) == v / 1000);
    assert(digit_val(digit_char((v / 100) % 10)) == (v / 100) % 10);
    assert(digit_val(digit_char((v / 10) % 10)) == (v / 10) % 10);
    assert(digit_val(digit_char(v % 10)) == v % 10);
    assert(dec_val(Seq::<char>::empty()) == 0);
    assert(dec_val(s.drop_last().drop_last().drop_last()) == v / 1000);
    assert(dec_val(s.drop_last().drop_last()) == dec_val(s.drop_last().drop_last().drop_last()) * 10
        + digit_val(s.drop_last().drop_last().last()));
    assert(dec_val(s.drop_last()) == dec_val(s.drop_last().drop_last()) * 10 + digit_val(
        s.drop_last().last(),
    ));
    assert(dec_val(s) == dec_val(s.drop_last()) * 10 + digit_val(s.last()));
    assert(1000 * (v / 1000) + 100 * ((v / 100) % 10) + 10 * ((v / 10) % 10) + v % 10 == v) by (nonlinear_arith)
        requires
            0 <= v < 10000,
    ;
    assert(dec_val(s) == v);
}

/// Round trip of the booking-instant encoding: a wall clock written by
/// [`format_store_datetime`] is accepted by the booking-instant parser
/// and reads back as the same wall clock.
pub proof fn lemma_store_datetime_round_trip(c: Civil)
    requires
        valid_date(c),
        valid_time(c),
        0 <= c.year,
    ensures
        book_date_accepted(store_text_of(c)),
        book_date_value(store_text_of(c)) == c,
{
    let s = store_text_of(c);
    lemma_pad4_val(c.year as int);
    lemma_pad2_val(c.month as int);
    lemma_pad2_val(c.day as int);
    lemma_pad2_val(c.hour as int);
    lemma_pad2_val(c.minute as int);
    lemma_pad2_val(c.second as int);
    assert(s.len() == 31);
    assert(s.subrange(0, 4) =~= pad4(c.year as int));
    assert(s.subrange(5, 7) =~= pad2(c.month as int));
    assert(s.subrange(8, 10) =~= pad2(c.day as int));
    assert(s.subrange(11, 13) =~= pad2(c.hour as int));
    assert(s.subrange(14, 16) =~= pad2(c.minute as int));
    assert(s.subrange(17, 19) =~= pad2(c.second as int));
    assert(s.subrange(0, 10) =~= date_text_of(c));
    assert(s.subrange(0, 10).subrange(0, 4) =~= pad4(c.year as int));
    assert(s.subrange(0, 10).subrange(5, 7) =~= pad2(c.month as int));
    assert(s.subrange(0, 10).subrange(8, 10) =~= pad2(c.day as int));
    assert(s.subrange(11, 19) =~= time_text_of(c));
    assert(s.subrange(11, 19).subrange(0, 2) =~= pad2(c.hour as int));
    assert(s.subrange(11, 19).subrange(3, 5) =~= pad2(c.minute as int));
    assert(s.subrange(11, 19).subrange(6, 8) =~= pad2(c.second as int));
    assert(s[19] == '.');
    assert(s[20] == '0');
    assert(is_digit(s[20]));
    assert(s[21] == ' ');
    assert(!is_digit(s[21]));
    assert(digits_end(s, 21) == 21);
    assert(digits_end(s, 20) == 21);
    assert(s[22] == '+');
    assert(s.subrange(23, 25) =~= seq!['0', '0']);
    assert(s[25] == ':');
    assert(s.subrange(26, 28) =~= seq!['0', '0']);
    assert(s[28] == ':');
    assert(s.subrange(29, 31) =~= seq!['0', '0']);
    lemma_pad2_val(0);
    assert(seq!['0', '0'] =~= pad2(0));
    assert(book_date_value(s) == c);
}

} // verus!
