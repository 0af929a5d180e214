//! Calendar dates as text: the day number of a moment turned into its date
//! in the proleptic Gregorian calendar, written as `Jan  1 1970`.
use vstd::prelude::*;

use crate::text::{decimal, repeat_char};

verus! {

/// The date `(year, month, day of month)` of the day `days` days after
/// January 1, 1970, in the proleptic Gregorian calendar. The days are
/// counted in eras of 400 years (146097 days) that begin on March 1, so
/// that the leap day ends a year of the count.
pub open spec fn civil_date(days: int) -> (int, int, int) {
    let z = days + 719468;
    let era = z / 146097;
    let day_of_era = z - era * 146097;
    let year_of_era = (day_of_era - day_of_era / 1460 + day_of_era / 36524 - day_of_era / 146096)
        / 365;
    let day_of_year = day_of_era - (365 * year_of_era + year_of_era / 4 - year_of_era / 100);
    let month_from_march = (5 * day_of_year + 2) / 153;
    let day = day_of_year - (153 * month_from_march + 2) / 5 + 1;
    let month = if month_from_march < 10 {
        month_from_march + 3
    } else {
        month_from_march - 9
    };
    let year = year_of_era + era * 400 + if month <= 2 {
        1int
    } else {
        0int
    };
    (year, month, day)
}

/// The English abbreviation of the month `m` (1 for January).
pub open spec fn month_abbrev(m: int) -> Seq<char> {
    if m == 1 {
        seq!['J', 'a', 'n']
    } else if m == 2 {
        seq!['F', 'e', 'b']
    } else if m == 3 {
        seq!['M', 'a', 'r']
    } else if m == 4 {
        seq!['A', 'p', 'r']
    } else if m == 5 {
        seq!['M', 'a', 'y']
    } else if m == 6 {
        seq!['J', 'u', 'n']
    } else if m == 7 {
        seq!['J', 'u', 'l']
    } else if m == 8 {
        seq!['A', 'u', 'g']
    } else if m == 9 {
        seq!['S', 'e', 'p']
    } else if m == 10 {
        seq!['O', 'c', 't']
    } else if m == 11 {
        seq!['N', 'o', 'v']
    } else {
        seq!['D', 'e', 'c']
    }
}

/// The decimal digits of `n`, with zeros in front up to `width` digits.
pub open spec fn zero_padded(n: nat, width: nat) -> Seq<char> {
    let digits = decimal(n);
    if digits.len() < width {
        repeat_char('0', (width - digits.len()) as nat) + digits
    } else {
        digits
    }
}

/// The day of the month in two characters, a space before a single digit.
pub open spec fn day_text(d: int) -> Seq<char> {
    if 0 <= d < 10 {
        seq![' '] + decimal(d as nat)
    } else {
        decimal(d as nat)
    }
}

/// The year: four digits from 0 to 9999, otherwise its sign and at least
/// four digits.
pub open spec fn year_text(y: int) -> Seq<char> {
    if 0 <= y <= 9999 {
        zero_padded(y as nat, 4)
    } else if y < 0 {
        seq!['-'] + zero_padded((-y) as nat, 4)
    } else {
        seq!['+'] + zero_padded(y as nat, 4)
    }
}

/// The date of the day `days` days after January 1, 1970, as the format
/// `"%b %e %Y"` writes it: month abbreviation, day of the month padded to
/// two characters, year; separated by spaces.
pub open spec fn date_text(days: int) -> Seq<char> {
    let (y, m, d) = civil_date(days);
    month_abbrev(m) + seq![' '] + day_text(d) + seq![' '] + year_text(y)
}

} // verus!
