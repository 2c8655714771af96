//! Conversion between protobuf timestamps and their RFC 3339 text.
use vstd::prelude::*;

use chrono::{DateTime, ParseError, Utc};

verus! {

#[verifier::external_type_specification]
#[verifier::external_body]
pub struct ExParseError(ParseError);

/// A point in time as `google.protobuf.Timestamp` holds it: seconds since
/// the Unix epoch and a count of nanoseconds within the second.
#[derive(Debug, Clone, Copy, PartialEq, Eq, Structural)]
pub struct Timestamp {
    pub seconds: i64,
    pub nanos: i32,
}

/// A nanosecond count that no instant has at `secs`: at least two seconds'
/// worth, or a leap second outside the last second of a minute.
pub open spec fn invalid_nanos(secs: int, nanos: int) -> bool {
    nanos >= 2_000_000_000 || (nanos >= 1_000_000_000 && secs % 60 != 59)
}

/// The seconds of the instants in calendar years -262143 to 262142, the
/// dates chrono represents.
pub open spec fn in_representable_range(secs: int) -> bool {
    -8_334_601_228_800 <= secs <= 8_210_266_876_799
}

/// The seconds of the instants in UTC calendar years 0000 to 9999, the
/// years RFC 3339 writes with four digits.
pub open spec fn in_four_digit_years(secs: int) -> bool {
    -62_167_219_200 <= secs <= 253_402_300_799
}

/// The RFC 3339 text chrono writes for the instant `secs` seconds and
/// `nanos` nanoseconds after the Unix epoch.
pub uninterp spec fn rfc3339_text(secs: int, nanos: int) -> Seq<char>;

/// Whether chrono reads the text as an RFC 3339 date and time.
pub uninterp spec fn rfc3339_accepts(text: Seq<char>) -> bool;

/// The UTC instant chrono reads from RFC 3339 text: seconds since the Unix
/// epoch and nanoseconds within the second.
pub uninterp spec fn rfc3339_instant(text: Seq<char>) -> (int, int);

/// `DateTime::<Utc>::from_timestamp` followed by `DateTime::to_rfc3339`: the
/// RFC 3339 text of the instant `secs` seconds and `nanos` nanoseconds after
/// the Unix epoch, absent exactly when no such instant is represented (an
/// impossible nanosecond count, or a date beyond the years -262143 to
/// 262142). For an instant in the years 0000 to 9999 outside a leap second,
/// `DateTime::parse_from_rfc3339` reads the text back as the same instant.
#[verifier::external_body]
fn timestamp_text(secs: i64, nanos: u32) -> (res: Option<String>)
    ensures
        res is None <==> invalid_nanos(secs as int, nanos as int) || !in_representable_range(
            secs as int,
        ),
        res matches Some(s) ==> s@ == rfc3339_text(secs as int, nanos as int),
        res matches Some(s) ==> (in_four_digit_years(secs as int) && nanos < 1_000_000_000
            ==> rfc3339_accepts(s@) && rfc3339_instant(s@) == (secs as int, nanos as int)),
{
    match DateTime::<Utc>::from_timestamp(secs, nanos) {
        Some(dt) => Some(dt.to_rfc3339()),
        None => None,
    }
}

/// `DateTime::parse_from_rfc3339` followed by `with_timezone(&Utc)`,
/// `timestamp` and `timestamp_subsec_nanos`: the UTC instant the text
/// denotes. Accepted text starts with 19 ASCII characters
/// `YYYY-MM-DDTHH:MM:SS`; the nanoseconds stay under two seconds' worth and
/// reach one second exactly when the seconds field is `60` (a leap second),
/// which falls on the last second of a UTC minute, offsets being whole
/// minutes.
#[verifier::external_body]
fn parse_instant(text: &str) -> (res: Result<(i64, u32), ParseError>)
    ensures
        res is Ok <==> rfc3339_accepts(text@),
        res matches Ok(p) ==> (p.0 as int, p.1 as int) == rfc3339_instant(text@),
        res matches Ok(p) ==> p.1 < 2_000_000_000,
        res matches Ok(p) ==> (p.1 >= 1_000_000_000 ==> p.0 % 60 == 59),
        res matches Ok(p) ==> text@.len() >= 19 && (p.1 >= 1_000_000_000 <==> (text@[17] == '6'
            && text@[18] == '0')),
{
    match DateTime::parse_from_rfc3339(text) {
        Ok(parsed) => {
            let utc = parsed.with_timezone(&Utc);
            Ok((utc.timestamp(), utc.timestamp_subsec_nanos()))
        },
        Err(e) => Err(e),
    }
}

/// A timestamp that names no instant.
#[derive(Debug, Clone, Copy, PartialEq, Eq)]
pub struct InvalidTimestamp;

impl InvalidTimestamp {
    /// The text of the error.
    pub fn message(&self) -> (res: String)
        ensures
            res@ == "invalid google.protobuf.Timestamp"@,
    {
        String::from_str("invalid google.protobuf.Timestamp")
    }
}

/// Text that is not an RFC 3339 date and time.
#[derive(Debug)]
pub struct TimestampParseError(pub ParseError);

/// Whether a timestamp names no instant chrono represents.
pub open spec fn timestamp_refused(t: Timestamp) -> bool {
    t.nanos < 0 || invalid_nanos(t.seconds as int, t.nanos as int) || !in_representable_range(
        t.seconds as int,
    )
}

/// Writes an optional timestamp as RFC 3339 text. No timestamp gives no
/// text; a timestamp that names no instant is refused; any other is written
/// as chrono writes its instant.
pub fn timestamp_to_rfc3339(value: &Option<Timestamp>) -> (res: Result<Option<String>, InvalidTimestamp>)
    ensures
        value is None ==> res matches Ok(None),
        value matches Some(t) ==> (res is Err <==> timestamp_refused(*t)),
        value matches Some(t) ==> (res matches Ok(s) ==> s is Some),
        value matches Some(t) ==> (res matches Ok(Some(s)) ==> s@ == rfc3339_text(
            t.seconds as int,
            t.nanos as int,
        )),
        value matches Some(t) ==> (res matches Ok(Some(s)) ==> (in_four_digit_years(
            t.seconds as int,
        ) && t.nanos < 1_000_000_000 ==> rfc3339_accepts(s@) && rfc3339_instant(s@) == (
            t.seconds as int,
            t.nanos as int,
        ))),
{
    match value {
        None => Ok(None),
        Some(timestamp) => {
            let nanos = timestamp.nanos as u32;
            proof {
                let n = timestamp.nanos;
                assert(n < 0 ==> (n as u32) >= 2147483648u32) by (bit_vector);
                assert(n >= 0 ==> (n as u32) as int == n as int) by (bit_vector);
            }
            match timestamp_text(timestamp.seconds, nanos) {
                Some(text) => Ok(Some(text)),
                None => Err(InvalidTimestamp),
            }
        },
    }
}

/// Reads an optional RFC 3339 text as a timestamp. No text gives no
/// timestamp; text that is not RFC 3339 is refused; any other gives the UTC
/// instant it denotes, whatever its offset, with a nanosecond count of one
/// second or more exactly when the text's seconds field is `60`.
pub fn timestamp_from_rfc3339(value: Option<String>) -> (res: Result<Option<Timestamp>, TimestampParseError>)
    ensures
        value is None ==> res matches Ok(None),
        value matches Some(text) ==> (res is Err <==> !rfc3339_accepts(text@)),
        value matches Some(text) ==> (res matches Ok(t) ==> t is Some),
        value matches Some(text) ==> (res matches Ok(Some(t)) ==> (t.seconds as int, t.nanos as int)
            == rfc3339_instant(text@)),
        res matches Ok(Some(t)) ==> 0 <= t.nanos < 2_000_000_000,
        res matches Ok(Some(t)) ==> (t.nanos >= 1_000_000_000 ==> t.seconds % 60 == 59),
        value matches Some(text) ==> (res matches Ok(Some(t)) ==> text@.len() >= 19 && (t.nanos
            >= 1_000_000_000 <==> (text@[17] == '6' && text@[18] == '0'))),
{
    match value {
        None => Ok(None),
        Some(text) => match parse_instant(text.as_str()) {
            Ok((seconds, nanos)) => Ok(Some(Timestamp { seconds, nanos: nanos as i32 })),
            Err(e) => Err(TimestampParseError(e)),
        },
    }
}

} // verus!
