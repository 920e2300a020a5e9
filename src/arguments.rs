//! Validation of command-line values: archive timestamps, calendar dates
//! and hours of the day.

use vstd::prelude::*;
use vstd::utf8::encode_utf8;
use crate::text::{digits_value, split_at_char, split_on};

verus! {

/// Whether every character of `s` is an ASCII digit.
pub open spec fn only_ascii_digits(s: Seq<char>) -> bool {
    forall|i: int| 0 <= i < s.len() ==> '0' <= #[trigger] s[i] && s[i] <= '9'
}

/// Accepts a timestamp of at most fourteen ASCII digits, returning it
/// unchanged; any other character gives an empty error message, and a longer
/// one a message giving the format.
pub fn validate_user_timestamp(arg: &str) -> (r: Result<String, String>)
    ensures
        !only_ascii_digits(arg@) ==> (r matches Err(m) && m@.len() == 0),
        only_ascii_digits(arg@) && arg@.len() > 14 ==> (r matches Err(m) && m@ == "format is YYYYMMDDhhmmss"@),
        only_ascii_digits(arg@) && arg@.len() <= 14 ==> (r matches Ok(s) && s@ == arg@),
{
    let n = arg.unicode_len();
    let mut i: usize = 0;
    while i < n
        invariant
            n == arg@.len(),
            i <= n,
            forall|t: int| 0 <= t < i ==> '0' <= #[trigger] arg@[t] && arg@[t] <= '9',
        decreases n - i,
    {
        let c = arg.get_char(i);
        if !('0' <= c && c <= '9') {
            proof {
                reveal_strlit("");
            }
            return Err("".to_string());
        }
        i = i + 1;
    }
    if n > 14 {
        return Err("format is YYYYMMDDhhmmss".to_string());
    }
    Ok(arg.to_string())
}

/// The length of `s` in UTF-8 bytes, as `str::len` counts it.
pub open spec fn byte_len(s: Seq<char>) -> usize {
    encode_utf8(s).len() as usize
}

/// A day or month field padded to two places with a leading zero.
pub open spec fn two_places(field: Seq<char>) -> Seq<char> {
    if byte_len(field) == 2 {
        field
    } else {
        "0"@ + field
    }
}

/// What `validate_ndt` gives for a `yyyy-dd-mm` date.
pub open spec fn ndt_result(arg: Seq<char>) -> Result<Seq<char>, Seq<char>> {
    let parts = split_on(arg, '-');
    if parts.len() != 3 {
        Err("need date as yyyy-dd-mm"@)
    } else if byte_len(parts[0]) != 4 {
        Err("need a valid year"@)
    } else if !(0 < byte_len(parts[1]) < 3) {
        Err("need a valid day"@)
    } else if !(0 < byte_len(parts[2]) < 3) {
        Err("need a valid month"@)
    } else {
        Ok(parts[0] + two_places(parts[1]) + two_places(parts[2]))
    }
}

fn padded(field: &str) -> (r: String)
    ensures
        r@ == two_places(field@),
{
    if field.len() == 2 {
        field.to_string()
    } else {
        let mut r = "0".to_string();
        r.append(field);
        r
    }
}

/// Checks a `yyyy-dd-mm` date (one-digit day and month allowed) and gives it
/// as `yyyyddmm`.
pub fn validate_ndt(arg: &str) -> (r: Result<String, String>)
    ensures
        match ndt_result(arg@) {
            Ok(v) => (r matches Ok(s) && s@ == v),
            Err(m) => (r matches Err(e) && e@ == m),
        },
{
    let parts = split_at_char(arg, '-');
    if parts.len() != 3 {
        return Err("need date as yyyy-dd-mm".to_string());
    }
    let year = parts[0].as_str();
    let day = parts[1].as_str();
    let month = parts[2].as_str();
    if year.len() != 4 {
        return Err("need a valid year".to_string());
    }
    if !(0 < day.len() && day.len() < 3) {
        return Err("need a valid day".to_string());
    }
    if !(0 < month.len() && month.len() < 3) {
        return Err("need a valid month".to_string());
    }
    let mut r = year.to_string();
    let d = padded(day);
    let m = padded(month);
    r.append(d.as_str());
    r.append(m.as_str());
    Ok(r)
}

/// Why an hour of the day was refused.
#[derive(Clone, Copy, Debug, PartialEq, Eq, Structural)]
pub enum HoursError {
    /// Not an unsigned 32-bit number.
    NotANumber,
    /// 24 or more.
    TooMany,
}

/// Whether `s` reads as a `u32` the way `str::parse::<u32>` reads it: an
/// optional `+`, then one or more ASCII digits, with a value that fits.
pub open spec fn reads_as_u32(s: Seq<char>) -> bool {
    u32_digits(s).len() > 0 && only_ascii_digits(u32_digits(s)) && digits_value(u32_digits(s))
        <= u32::MAX
}

/// The digits of a `u32` string: all of it but a leading `+`.
pub open spec fn u32_digits(s: Seq<char>) -> Seq<char> {
    if s.len() > 0 && s[0] == '+' {
        s.skip(1)
    } else {
        s
    }
}

/// The value such a string reads as.
pub open spec fn u32_value(s: Seq<char>) -> nat {
    digits_value(u32_digits(s))
}

/// An hour count below 24.
pub fn parse_hours(arg: &str) -> (r: Result<u32, HoursError>)
    ensures
        !reads_as_u32(arg@) ==> r == Err::<u32, HoursError>(HoursError::NotANumber),
        reads_as_u32(arg@) && u32_value(arg@) >= 24 ==> r == Err::<u32, HoursError>(HoursError::TooMany),
        reads_as_u32(arg@) && u32_value(arg@) < 24 ==> (r matches Ok(h) && h as nat == u32_value(arg@)),
{
    let n = arg.unicode_len();
    let start: usize = if n > 0 && arg.get_char(0) == '+' { 1 } else { 0 };
    let digits = arg.substring_char(start, n);
    assert(digits@ =~= u32_digits(arg@));
    match crate::text::parse_digits(digits) {
        None => {
            proof {
                if reads_as_u32(arg@) {
                    assert(crate::text::all_digits(digits@)) by {
                        assert forall|i: int| 0 <= i < digits@.len() implies #[trigger] crate::text::digit_value(digits@[i]) is Some by {
                            assert('0' <= digits@[i] && digits@[i] <= '9');
                        }
                    }
                }
            }
            Err(HoursError::NotANumber)
        },
        Some(v) => {
            proof {
                assert forall|i: int| 0 <= i < digits@.len() implies '0' <= #[trigger] digits@[i] && digits@[i] <= '9' by {
                    assert(crate::text::digit_value(digits@[i]) is Some);
                }
            }
            if v > 4294967295 {
                return Err(HoursError::NotANumber);
            }
            if v >= 24 {
                Err(HoursError::TooMany)
            } else {
                Ok(v as u32)
            }
        },
    }
}

} // verus!
