//! The time of day.
use crate::error::LedgerError;
use crate::text::is_digit;
use vstd::prelude::*;

verus! {

/// The error of a failed formatting of the `time` crate.
#[verifier::external_type_specification]
#[verifier::external_body]
pub struct ExFormat(time::error::Format);

/// A time in UTC as RFC 3339 writes it: date, `T`, time, perhaps a fraction of the second, `Z`.
pub open spec fn is_utc_time(s: Seq<char>) -> bool {
    &&& s.len() >= 20
    &&& forall|i: int|
        0 <= i < 19 ==> if i == 4 || i == 7 {
            #[trigger] s[i] == '-'
        } else if i == 10 {
            s[i] == 'T'
        } else if i == 13 || i == 16 {
            s[i] == ':'
        } else {
            is_digit(s[i])
        }
    &&& s.last() == 'Z'
}

/// `time::OffsetDateTime::now_utc` and its `format` with `Rfc3339`: the time that the clock
/// shows, in the form of [`is_utc_time`], or an error where the form cannot write it. Which time
/// is left open. A clock beyond the year 9999 is more than the crate can hold, and makes the call
/// panic.
#[verifier::external_body]
pub(crate) fn format_now() -> (r: Result<String, time::error::Format>)
    ensures
        r matches Ok(text) ==> is_utc_time(text@),
{
    time::OffsetDateTime::now_utc().format(&time::format_description::well_known::Rfc3339)
}

/// `Display` of `time::error::Format`. Its words are not stated.
#[verifier::external_body]
pub(crate) fn format_error_text(error: &time::error::Format) -> (r: String) {
    error.to_string()
}

/// What is told of the outcome of reading the clock.
pub fn time_or_error(now: Result<String, String>) -> (r: Result<String, LedgerError>)
    ensures
        match now {
            Ok(text) => r == Ok::<String, LedgerError>(text),
            Err(m) => r == Err::<String, LedgerError>(LedgerError::Storage(m)),
        },
{
    match now {
        Ok(text) => Ok(text),
        Err(m) => Err(LedgerError::Storage(m)),
    }
}

/// The time now.
pub fn now_rfc3339() -> (r: Result<String, LedgerError>)
    ensures
        match r {
            Ok(text) => is_utc_time(text@),
            Err(e) => e is Storage,
        },
{
    match format_now() {
        Ok(text) => time_or_error(Ok(text)),
        Err(e) => time_or_error(Err(format_error_text(&e))),
    }
}

/// The time that stands where the clock cannot be read.
pub open spec fn epoch() -> Seq<char> {
    "1970-01-01T00:00:00Z"@
}

/// The time, or the start of the epoch where there is none.
pub fn time_or_epoch(now: Option<String>) -> (r: String)
    ensures
        match now {
            Some(text) => r == text,
            None => r@ == epoch() && r@ == "1970-01-01T00:00:00Z"@,
        },
{
    match now {
        Some(text) => text,
        None => "1970-01-01T00:00:00Z".to_owned(),
    }
}

/// The time now, or the start of the epoch where the clock cannot be read.
pub fn now_or_epoch() -> (r: String)
    ensures
        is_utc_time(r@),
{
    let now = match format_now() {
        Ok(text) => Some(text),
        Err(_) => None,
    };
    proof {
        reveal_strlit("1970-01-01T00:00:00Z");
    }
    time_or_epoch(now)
}

} // verus!
