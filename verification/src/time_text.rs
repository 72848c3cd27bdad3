//! Dates and times of the dumps, read and written by chrono. Each call returns the parsed
//! value as text, so that the library only ever handles plain strings.
use vstd::prelude::*;

verus! {

/// What chrono gives for `s` read as a naive date and time with `format`: the value
/// written back with `format`, and the value taken as UTC and written in RFC 3339.
pub uninterp spec fn chrono_naive_datetime(s: Seq<char>, format: Seq<char>) -> Option<(Seq<char>, Seq<char>)>;

/// What chrono gives for `s` read as a `%Y-%m-%d` date: the date written back with
/// `%Y-%m-%d`, and midnight of that day written with `%Y-%m-%d %H:%M:%S`.
pub uninterp spec fn chrono_naive_date(s: Seq<char>) -> Option<(Seq<char>, Seq<char>)>;

/// What chrono gives for `s` read as RFC 3339: the time moved to UTC, written in RFC 3339.
pub uninterp spec fn chrono_rfc3339_utc(s: Seq<char>) -> Option<Seq<char>>;

/// The formats in which the dumps write times.
pub open spec fn dump_time_format(format: Seq<char>) -> bool {
    format == "%Y-%m-%d %H:%M:%S"@ || format == "%Y-%m-%d %H:%M:%S%.f"@ || format
        == "%Y-%m-%dT%H:%M:%S%.f"@ || format == "%Y-%m-%dT%H:%M:%S"@
}

/// `chrono::NaiveDateTime::parse_from_str(s, format)`. A parsed value is returned written
/// back with `format` (`format(format).to_string()`) and, taken as UTC
/// (`DateTime::from_naive_utc_and_offset`), written with `to_rfc3339`. The contract names
/// the result; which texts chrono accepts is not restated. Only the dump formats are
/// passed, which chrono can always write back.
#[verifier::external_body]
pub(crate) fn parse_naive_datetime(s: &str, format: &str) -> (r: Option<(String, String)>)
    requires
        dump_time_format(format@),
    ensures
        match r {
            Some((a, b)) => chrono_naive_datetime(s@, format@) == Some((a@, b@)),
            None => chrono_naive_datetime(s@, format@) is None,
        },
{
    chrono::NaiveDateTime::parse_from_str(s, format).ok().map(
        |dt| {
            let utc = chrono::DateTime::<chrono::Utc>::from_naive_utc_and_offset(dt, chrono::Utc);
            (dt.format(format).to_string(), utc.to_rfc3339())
        },
    )
}

/// `chrono::NaiveDate::parse_from_str(s, "%Y-%m-%d")`. A parsed date is returned written
/// back with `%Y-%m-%d`, and at 00:00:00 (`and_hms_opt(0, 0, 0)`, always a valid time)
/// written with `%Y-%m-%d %H:%M:%S`. The contract names the result.
#[verifier::external_body]
pub(crate) fn parse_naive_date(s: &str) -> (r: Option<(String, String)>)
    ensures
        match r {
            Some((a, b)) => chrono_naive_date(s@) == Some((a@, b@)),
            None => chrono_naive_date(s@) is None,
        },
{
    chrono::NaiveDate::parse_from_str(s, "%Y-%m-%d").ok().and_then(
        |d| d.and_hms_opt(0, 0, 0).map(|m| (d.format("%Y-%m-%d").to_string(), m.format("%Y-%m-%d %H:%M:%S").to_string())),
    )
}

/// `chrono::DateTime::parse_from_rfc3339(s)`, moved to UTC (`with_timezone(&Utc)`) and
/// written with `to_rfc3339`. The contract names the result.
#[verifier::external_body]
pub(crate) fn parse_rfc3339_utc(s: &str) -> (r: Option<String>)
    ensures
        match r {
            Some(t) => chrono_rfc3339_utc(s@) == Some(t@),
            None => chrono_rfc3339_utc(s@) is None,
        },
{
    chrono::DateTime::parse_from_rfc3339(s).ok().map(|d| d.with_timezone(&chrono::Utc).to_rfc3339())
}

} // verus!
