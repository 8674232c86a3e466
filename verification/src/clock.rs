//! The wall clock, read through the `time` crate.
use vstd::prelude::*;
use crate::error::CoreError;
use crate::text::all_digits;

verus! {

#[verifier::external_type_specification]
#[verifier::external_body]
pub struct ExTimeFormatError(time::error::Format);

/// A UTC time as the `time` crate prints it in RFC 3339: `YYYY-MM-DDTHH:MM:SS`,
/// then optionally `.` and one to nine digits of the second, then `Z`.
pub open spec fn rfc3339_utc_text(s: Seq<char>) -> bool {
    &&& 20 <= s.len() <= 30
    &&& all_digits(s.subrange(0, 4)) && s[4] == '-'
    &&& all_digits(s.subrange(5, 7)) && s[7] == '-'
    &&& all_digits(s.subrange(8, 10)) && s[10] == 'T'
    &&& all_digits(s.subrange(11, 13)) && s[13] == ':'
    &&& all_digits(s.subrange(14, 16)) && s[16] == ':'
    &&& all_digits(s.subrange(17, 19))
    &&& s[s.len() - 1] == 'Z'
    &&& (s.len() == 20 || (s.len() >= 22 && s[19] == '.' && all_digits(s.subrange(20, s.len() - 1))))
}

/// `OffsetDateTime::now_utc().format(&Rfc3339)`: the current UTC time as RFC 3339
/// text. Which time it is depends on the clock; the contract claims only the
/// shape the crate's RFC 3339 formatter writes for a UTC value (four-digit
/// year, two-digit fields, a fraction of one to nine digits when the
/// nanoseconds are not zero, and `Z`).
#[verifier::external_body]
fn utc_now_rfc3339() -> (r: Result<String, time::error::Format>)
    ensures
        r matches Ok(s) ==> rfc3339_utc_text(s@),
{
    time::OffsetDateTime::now_utc().format(&time::format_description::well_known::Rfc3339)
}

/// `Display` of `time::error::Format`: the error's message, of which nothing is stated.
#[verifier::external_body]
fn format_error_text(e: &time::error::Format) -> (r: String) {
    e.to_string()
}

/// The current UTC time as RFC 3339 text (see `rfc3339_utc_text`); a
/// formatting failure becomes `TimeFormat`.
pub fn now_rfc3339() -> (r: Result<String, CoreError>)
    ensures
        r matches Ok(s) ==> rfc3339_utc_text(s@),
        r matches Err(e) ==> e is TimeFormat,
{
    match utc_now_rfc3339() {
        Ok(text) => Ok(text),
        Err(e) => Err(CoreError::TimeFormat(format_error_text(&e))),
    }
}

} // verus!
