//! The current time, as the download records write it.
use vstd::prelude::*;
use crate::numbers::{all_digits, digits_value};

verus! {

/// The pattern of download times: `2024-01-31 23:59:58`.
pub open spec fn download_time_pattern() -> Seq<char> {
    "%Y-%m-%d %H:%M:%S"@
}

/// `s` is two decimal digits whose value lies between `lo` and `hi`.
pub open spec fn two_digits_between(s: Seq<char>, lo: nat, hi: nat) -> bool {
    &&& s.len() == 2
    &&& all_digits(s)
    &&& lo <= digits_value(s) <= hi
}

/// `s` is a year as `%Y` writes it: at least four decimal digits, with a
/// sign in front for years outside 0 to 9999.
pub open spec fn is_year_text(s: Seq<char>) -> bool {
    let digits = if s.len() > 0 && (s[0] == '+' || s[0] == '-') {
        s.drop_first()
    } else {
        s
    };
    digits.len() >= 4 && all_digits(digits)
}

/// `s` is a time written with `download_time_pattern`: a year, then
/// `-MM-DD HH:MM:SS` with month 01 to 12, day 01 to 31, hour 00 to 23,
/// minute 00 to 59 and second 00 to 60.
pub open spec fn is_download_time(s: Seq<char>) -> bool {
    s.len() >= 19 && {
        let year = s.take(s.len() - 15);
        let rest = s.skip(s.len() - 15);
        &&& is_year_text(year)
        &&& rest[0] == '-'
        &&& two_digits_between(rest.subrange(1, 3), 1, 12)
        &&& rest[3] == '-'
        &&& two_digits_between(rest.subrange(4, 6), 1, 31)
        &&& rest[6] == ' '
        &&& two_digits_between(rest.subrange(7, 9), 0, 23)
        &&& rest[9] == ':'
        &&& two_digits_between(rest.subrange(10, 12), 0, 59)
        &&& rest[12] == ':'
        &&& two_digits_between(rest.subrange(13, 15), 0, 60)
    }
}

/// Reads the system clock with `SystemTime::now()` and takes
/// `duration_since(UNIX_EPOCH)`: the whole seconds and the nanoseconds
/// past them, or `None` when the clock reads before the Unix epoch. Which
/// time comes out depends on the clock; the contract claims only what
/// `Duration::subsec_nanos` documents, that the nanoseconds stay below one
/// billion.
#[verifier::external_body]
pub(crate) fn unix_now() -> (r: Option<(u64, u32)>)
    ensures
        r matches Some(t) ==> t.1 < 1_000_000_000,
{
    match std::time::SystemTime::now().duration_since(std::time::UNIX_EPOCH) {
        Ok(d) => Some((d.as_secs(), d.subsec_nanos())),
        Err(_) => None,
    }
}

/// What chrono writes for the UTC time `secs` seconds and `nanos`
/// nanoseconds after the Unix epoch, with `pattern`; `None` when
/// `DateTime::from_timestamp` cannot represent that time.
pub uninterp spec fn utc_time_text(secs: i64, nanos: u32, pattern: Seq<char>) -> Option<Seq<char>>;

/// Calls `chrono::DateTime::from_timestamp(secs, nanos)` and, when it gives
/// a time, formats it with `pattern` through `DateTime::format` and
/// `to_string`. The contract claims that the answer is `utc_time_text` of
/// the arguments, and the shape that chrono's `strftime` documentation
/// gives each field of the pattern (`%Y` at least four digits with a sign
/// outside 0 to 9999, `%m` 01 to 12, `%d` 01 to 31, `%H` 00 to 23, `%M` 00 to
/// 59, `%S` 00 to 60, each zero-padded to 2 digits).
#[verifier::external_body]
pub(crate) fn format_utc(secs: i64, nanos: u32, pattern: &str) -> (r: Option<String>)
    requires
        pattern@ == download_time_pattern(),
    ensures
        r matches Some(s) ==> utc_time_text(secs, nanos, pattern@) == Some(s@),
        r is None <==> utc_time_text(secs, nanos, pattern@) is None,
        r matches Some(s) ==> is_download_time(s@),
{
    match chrono::DateTime::from_timestamp(secs, nanos) {
        Some(d) => Some(d.format(pattern).to_string()),
        None => None,
    }
}

/// `时间超出范围`
pub open spec fn time_out_of_range_message() -> Seq<char> {
    "时间超出范围"@
}

/// `系统时间早于1970年`
pub open spec fn clock_before_epoch_message() -> Seq<char> {
    "系统时间早于1970年"@
}

/// The download time for the clock reading `now` (seconds and nanoseconds
/// since the Unix epoch, `None` for a clock before the epoch): the time
/// chrono writes with `download_time_pattern`, or an error when the clock
/// is before the epoch or the time cannot be represented.
pub open spec fn download_time_of(now: Option<(u64, u32)>) -> Result<Seq<char>, Seq<char>> {
    match now {
        None => Err(clock_before_epoch_message()),
        Some(t) => if t.0 > i64::MAX {
            Err(time_out_of_range_message())
        } else {
            match utc_time_text(t.0 as i64, t.1, download_time_pattern()) {
                Some(text) => Ok(text),
                None => Err(time_out_of_range_message()),
            }
        },
    }
}

/// The download time for the clock reading `now` (see `download_time_of`).
pub fn download_time_at(now: Option<(u64, u32)>) -> (r: Result<String, String>)
    ensures
        r matches Ok(s) ==> download_time_of(now) == Ok::<Seq<char>, Seq<char>>(s@) && is_download_time(s@),
        r matches Err(e) ==> download_time_of(now) == Err::<Seq<char>, Seq<char>>(e@),
{
    match now {
        None => Err(String::from_str("系统时间早于1970年")),
        Some((secs, nanos)) => {
            if secs > 9223372036854775807u64 {
                return Err(String::from_str("时间超出范围"));
            }
            let pattern = "%Y-%m-%d %H:%M:%S";
            proof {
                reveal_strlit("%Y-%m-%d %H:%M:%S");
            }
            match format_utc(secs as i64, nanos, pattern) {
                Some(text) => Ok(text),
                None => Err(String::from_str("时间超出范围")),
            }
        },
    }
}

/// The current UTC time as a download time, written with
/// `download_time_pattern`; an error when the system clock reads before
/// the Unix epoch or past what chrono can represent.
pub fn download_time_now() -> (r: Result<String, String>)
    ensures
        r matches Ok(s) ==> is_download_time(s@),
        r matches Err(e) ==> e@ == clock_before_epoch_message() || e@ == time_out_of_range_message(),
{
    download_time_at(unix_now())
}

} // verus!
