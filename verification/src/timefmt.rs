//! Timestamp display for people: the instant in the machine's local zone with its
//! abbreviation and UTC offset, an em dash for a missing stamp, and the raw text marked
//! unparsed for one that does not read as an instant.

use vstd::prelude::*;
use crate::durations::{iso_millis, parse_iso_millis};

verus! {

/// An ASCII decimal digit.
pub open spec fn is_digit(c: char) -> bool {
    '0' <= c && c <= '9'
}

/// `s[i..j]` is all decimal digits.
pub open spec fn digits_at(s: Seq<char>, i: int, j: int) -> bool {
    forall|k: int| i <= k < j ==> #[trigger] is_digit(s[k])
}

/// The year that `%Y` writes fills `s[0..k]`: four digits (years 0 to 9999, zero
/// padded), or a minus sign and three or four digits (years before year 0).
pub open spec fn year_lead(s: Seq<char>, k: int) -> bool {
    &&& s.len() >= k
    &&& {
        ||| k == 4 && digits_at(s, 0, 4)
        ||| (k == 4 || k == 5) && s[0] == '-' && digits_at(s, 1, k)
    }
}

/// `s[k..k + 16]` is `-MM-DD HH:MM:SS `.
pub open spec fn clock_at(s: Seq<char>, k: int) -> bool {
    &&& s.len() >= k + 16
    &&& s[k] == '-' && digits_at(s, k + 1, k + 3)
    &&& s[k + 3] == '-' && digits_at(s, k + 4, k + 6)
    &&& s[k + 6] == ' ' && digits_at(s, k + 7, k + 9)
    &&& s[k + 9] == ':' && digits_at(s, k + 10, k + 12)
    &&& s[k + 12] == ':' && digits_at(s, k + 13, k + 15)
    &&& s[k + 15] == ' '
}

/// `s` ends with `(UTC±hh:mm)`, or `(UTC±hh:mm:ss)` for an offset with seconds.
pub open spec fn utc_tail(s: Seq<char>) -> bool {
    let n = s.len() as int;
    ||| n >= 11 && s.subrange(n - 11, n - 7) == "(UTC"@ && (s[n - 7] == '+' || s[n - 7] == '-')
        && digits_at(s, n - 6, n - 4) && s[n - 4] == ':' && digits_at(s, n - 3, n - 1)
        && s[n - 1] == ')'
    ||| n >= 14 && s.subrange(n - 14, n - 10) == "(UTC"@ && (s[n - 10] == '+' || s[n - 10] == '-')
        && digits_at(s, n - 9, n - 7) && s[n - 7] == ':' && digits_at(s, n - 6, n - 4)
        && s[n - 4] == ':' && digits_at(s, n - 3, n - 1) && s[n - 1] == ')'
}

/// The shape of `%Y-%m-%d %H:%M:%S %Z(UTC%:z)` on any instant in any zone: the date
/// and clock in front, the zone abbreviation (whatever the zone calls itself) in the
/// middle, and the UTC offset in brackets at the end.
pub open spec fn local_stamp_shape(s: Seq<char>) -> bool {
    &&& (year_lead(s, 4) && clock_at(s, 4)) || (year_lead(s, 5) && clock_at(s, 5))
    &&& utc_tail(s)
}

/// Renders epoch milliseconds in the system time zone with jiff
/// (`Timestamp::from_millisecond`, `TimeZone::system`, `Zoned::strftime` with
/// `%Y-%m-%d %H:%M:%S %Z(UTC%:z)`); `None` when `from_millisecond` refuses the instant.
/// Which zone, abbreviation and offset come out depends on the machine, so the contract
/// claims only the shape that jiff's strftime printer writes for those directives
/// (`%Y` zero-padded to four with a leading `-` before year 0, `%m %d %H %M %S` two
/// zero-padded digits, `%:z` sign, two-digit hours, `:`, minutes, and `:` seconds only
/// when the offset has them).
#[verifier::external_body]
fn local_compact(ms: i64) -> (r: Option<String>)
    ensures
        r matches Some(s) ==> local_stamp_shape(s@),
{
    let ts = jiff::Timestamp::from_millisecond(ms).ok()?;
    let z = ts.to_zoned(jiff::tz::TimeZone::system());
    Some(z.strftime("%Y-%m-%d %H:%M:%S %Z(UTC%:z)").to_string())
}

/// What a missing timestamp renders as.
pub open spec fn em_dash() -> Seq<char> {
    "—"@
}

/// The raw text of an unreadable timestamp, marked as such.
pub open spec fn unparsed(raw: Seq<char>) -> Seq<char> {
    raw + " (unparsed)"@
}

fn unparsed_form(raw: &str) -> (u: String)
    ensures
        u@ == unparsed(raw@),
{
    let mut u = String::new();
    u.append(raw);
    u.append(" (unparsed)");
    u
}

/// Render a record timestamp for a person: `—` when absent, the raw text marked
/// `(unparsed)` when it is not an instant, else the local rendering of the instant.
pub fn format_timestamp(ts: Option<&str>) -> (s: String)
    ensures
        ts is None ==> s@ == em_dash(),
        ts matches Some(raw) ==> (iso_millis(raw@) is None ==> s@ == unparsed(raw@)),
        ts matches Some(raw) ==> (iso_millis(raw@) is Some ==> (local_stamp_shape(s@) || s@
            == unparsed(raw@))),
{
    let raw = match ts {
        None => return "—".to_string(),
        Some(r) => r,
    };
    match parse_iso_millis(raw) {
        None => unparsed_form(raw),
        Some(ms) => match local_compact(ms) {
            Some(s) => s,
            None => unparsed_form(raw),
        },
    }
}

} // verus!
