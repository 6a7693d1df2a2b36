//! The clock, and times written as text.
use crate::text::compose::option_text;
use crate::text::split::{lemma_texts_push, texts};
use vstd::prelude::*;

verus! {

broadcast use vstd::string::group_string_axioms;

/// An ASCII digit.
pub open spec fn is_digit(c: char) -> bool {
    '0' <= c && c <= '9'
}

/// What a year begins with: a digit, or the sign of a year outside 0 to 9999.
pub open spec fn begins_year(c: char) -> bool {
    is_digit(c) || c == '+' || c == '-'
}

/// A date as `YYYY-MM-DD`.
pub open spec fn is_date_text(s: Seq<char>) -> bool {
    let n = s.len() as int;
    &&& n >= 10
    &&& begins_year(s[0])
    &&& forall|i: int|
        0 < i < n ==> if i == n - 3 || i == n - 6 {
            #[trigger] s[i] == '-'
        } else {
            is_digit(s[i])
        }
}

/// A time of day as `HH:MM`.
pub open spec fn is_clock_text(s: Seq<char>) -> bool {
    &&& s.len() == 5
    &&& forall|i: int|
        0 <= i < 5 ==> if i == 2 {
            #[trigger] s[i] == ':'
        } else {
            is_digit(s[i])
        }
}

/// A moment as `YYYYMMDD` and `HHMMSS` with `sep` between them.
pub open spec fn is_stamp(s: Seq<char>, sep: char) -> bool {
    let n = s.len() as int;
    &&& n >= 15
    &&& begins_year(s[0])
    &&& forall|i: int|
        0 < i < n ==> if i == n - 7 {
            #[trigger] s[i] == sep
        } else {
            is_digit(s[i])
        }
}

/// A moment as `YYYY-MM-DDTHH:MM:SS`, a fraction of a second or none, and the offset from UTC as `+HH:MM` or
/// `-HH:MM`. It can be read back where the year is one of 0 to 9999 and the offset is below 24 hours.
pub open spec fn is_time_text(s: Seq<char>) -> bool {
    let n = s.len() as int;
    &&& n >= 25
    &&& begins_year(s[0])
    &&& is_digit(s[0]) ==> is_date_text(s.take(10)) && s[10] == 'T' && is_clock_text(
        s.subrange(11, 16),
    ) && s[16] == ':' && is_digit(s[17]) && is_digit(s[18])
    &&& s[n - 6] == '+' || s[n - 6] == '-'
    &&& is_clock_text(s.skip(n - 5))
    &&& is_digit(s[0]) && s.subrange(n - 5, n - 3) != "24"@ ==> rfc3339_instant(s) is Some
}

/// A moment in UTC, as `YYYY-MM-DDTHH:MM:SS`, a fraction of a second or none, and `+00:00`.
pub open spec fn is_utc_text(s: Seq<char>) -> bool {
    is_time_text(s) && s.skip(s.len() - 6) == "+00:00"@
}

/// Moments in UTC.
pub open spec fn are_utc_texts(times: Seq<Seq<char>>) -> bool {
    forall|i: int| 0 <= i < times.len() ==> is_utc_text(#[trigger] times[i])
}

/// The digits of a moment whose year is one of 0 to 9999, as `YYYYMMDD_HHMMSS`.
pub open spec fn stamp_of(text: Seq<char>) -> Seq<char> {
    text.subrange(0, 4) + text.subrange(5, 7) + text.subrange(8, 10) + "_"@ + text.subrange(11, 13)
        + text.subrange(14, 16) + text.subrange(17, 19)
}

/// The stamp and the text are of one moment.
pub open spec fn are_of_one_moment(stamp: Seq<char>, text: Seq<char>) -> bool {
    &&& is_stamp(stamp, '_')
    &&& is_time_text(text)
    &&& is_digit(text[0]) ==> stamp == stamp_of(text)
}

/// `chrono::Local::now` with `DateTime::format`: the local date as `YYYY-MM-DD` and the local time as
/// `HH:MM`, both of one moment. Claimed is the form of the texts; which moment it is depends on the clock.
#[verifier::external_body]
pub(crate) fn local_date_and_time() -> (r: (String, String))
    ensures
        is_date_text(r.0@),
        is_clock_text(r.1@),
{
    let now = chrono::Local::now();
    (now.format("%Y-%m-%d").to_string(), now.format("%H:%M").to_string())
}

/// `chrono::Utc::now` with `DateTime::format`: the moment as `YYYYMMDD_HHMMSS`. Claimed is the form of the
/// text; which moment it is depends on the clock.
#[verifier::external_body]
pub(crate) fn utc_stamp() -> (r: String)
    ensures
        is_stamp(r@, '_'),
{
    chrono::Utc::now().format("%Y%m%d_%H%M%S").to_string()
}

/// `chrono::Utc::now` with `DateTime::to_rfc3339`: the moment in RFC 3339 form. Claimed is that form, and
/// that `DateTime::parse_from_rfc3339` reads a text whose year is one of 0 to 9999; which moment it is
/// depends on the clock.
#[verifier::external_body]
pub(crate) fn utc_now_text() -> (r: String)
    ensures
        is_utc_text(r@),
{
    chrono::Utc::now().to_rfc3339()
}

/// Reads the clock `n` times, one reading after the other.
pub(crate) fn utc_now_texts(n: usize) -> (r: Vec<String>)
    ensures
        r@.len() == n,
        are_utc_texts(texts(r@)),
{
    let mut out: Vec<String> = Vec::new();
    let mut i: usize = 0;
    while i < n
        invariant
            i <= n,
            out@.len() == i,
            are_utc_texts(texts(out@)),
        decreases n - i,
    {
        let now = utc_now_text();
        proof {
            lemma_texts_push(out@, now);
        }
        out.push(now);
        i += 1;
    }
    out
}

/// `chrono::Local::now` with `DateTime::to_rfc3339`: the moment in RFC 3339 form with the local offset.
/// Claimed is that form, and that `DateTime::parse_from_rfc3339` reads a text whose year is one of 0 to 9999
/// and whose offset is below 24 hours; which moment it is depends on the clock.
#[verifier::external_body]
pub(crate) fn local_now_text() -> (r: String)
    ensures
        is_time_text(r@),
{
    chrono::Local::now().to_rfc3339()
}

/// How many whole seconds lie between two times in RFC 3339 form, the earlier one first; none where one
/// of the texts is not in that form. A leap second that one of the texts names counts too, so this is not
/// the difference of the two instants.
pub uninterp spec fn rfc3339_age(then: Seq<char>, now: Seq<char>) -> Option<i64>;

/// `chrono::DateTime::parse_from_rfc3339` on both texts, `DateTime::signed_duration_since`, and
/// `chrono::TimeDelta::num_seconds` of the difference: the result depends on the two texts alone, and
/// there is one where both can be read.
#[verifier::external_body]
pub(crate) fn age_seconds(then: &str, now: &str) -> (r: Option<i64>)
    ensures
        r == rfc3339_age(then@, now@),
        r is Some == (rfc3339_instant(then@) is Some && rfc3339_instant(now@) is Some),
{
    let t = chrono::DateTime::parse_from_rfc3339(then).ok()?;
    let n = chrono::DateTime::parse_from_rfc3339(now).ok()?;
    Some(n.signed_duration_since(t).num_seconds())
}

/// `chrono::Local::now` with `DateTime::format` and `DateTime::to_rfc3339`: one moment of local time as
/// `YYYYMMDD_HHMMSS` and in RFC 3339 form. Claimed is the form of both, that they name the same second, and
/// that `DateTime::parse_from_rfc3339` reads a text whose year is one of 0 to 9999 and whose offset is below
/// 24 hours; which moment it is depends on the clock.
#[verifier::external_body]
pub(crate) fn local_stamp_and_text() -> (r: (String, String))
    ensures
        are_of_one_moment(r.0@, r.1@),
{
    let now = chrono::Local::now();
    (now.format("%Y%m%d_%H%M%S").to_string(), now.to_rfc3339())
}

/// The first second that a moment can have, counted from the beginning of 1970.
pub const FIRST_SECOND: i64 = -8334601228800;

/// The last second that a moment can have, counted from the beginning of 1970.
pub const LAST_SECOND: i64 = 8210266876799;

/// A second of time, and how far the local time there is ahead of UTC.
#[derive(Debug, Clone, Copy, PartialEq, Eq, Structural)]
pub struct Moment {
    /// The seconds since the beginning of 1970 in UTC.
    pub seconds: i64,
    /// The seconds that local time is ahead.
    pub offset_seconds: i32,
}

/// The local date and time of a moment, written by a pattern; none where there is no such moment.
pub uninterp spec fn moment_formatted(
    seconds: i64,
    offset_seconds: i32,
    pattern: Seq<char>,
) -> Option<Seq<char>>;

/// `chrono::DateTime::from_timestamp` and `chrono::FixedOffset::east_opt`, then `DateTime::with_timezone`
/// and `DateTime::format`: the result depends on the numbers and the pattern alone, and there is one where
/// the second lies in the range of `DateTime` and the offset is less than a day. The pattern is one that
/// `format` accepts.
#[verifier::external_body]
fn format_seconds(seconds: i64, offset_seconds: i32, pattern: &str) -> (r: Option<String>)
    requires
        pattern@ == "%Y-%m-%d"@ || pattern@ == "%H:%M"@ || pattern@ == "%Y-%m-%d %H:%M"@,
    ensures
        option_text(r) == moment_formatted(seconds, offset_seconds, pattern@),
        r is Some == (FIRST_SECOND <= seconds <= LAST_SECOND && -86400 < offset_seconds < 86400),
{
    let utc = chrono::DateTime::from_timestamp(seconds, 0)?;
    let offset = chrono::FixedOffset::east_opt(offset_seconds)?;
    Some(utc.with_timezone(&offset).format(pattern).to_string())
}

impl Moment {
    /// The second is one of the years -262143 to 262142, and the offset is less than a day.
    pub open spec fn wf(&self) -> bool {
        &&& FIRST_SECOND <= self.seconds <= LAST_SECOND
        &&& -86400 < self.offset_seconds < 86400
    }

    /// The moment written by a pattern; none where there is no such moment.
    pub(crate) fn format(&self, pattern: &str) -> (r: Option<String>)
        requires
            pattern@ == "%Y-%m-%d"@ || pattern@ == "%H:%M"@ || pattern@ == "%Y-%m-%d %H:%M"@,
        ensures
            option_text(r) == moment_formatted(self.seconds, self.offset_seconds, pattern@),
            r is Some == self.wf(),
    {
        format_seconds(self.seconds, self.offset_seconds, pattern)
    }
}

/// A time in RFC 3339 form as seconds since the beginning of 1970 and nanoseconds of the second; none
/// where the text is not in that form.
pub uninterp spec fn rfc3339_instant(text: Seq<char>) -> Option<(i64, u32)>;

/// `chrono::DateTime::parse_from_rfc3339`, `DateTime::timestamp` and `DateTime::timestamp_subsec_nanos`:
/// the result depends on the text alone.
#[verifier::external_body]
pub(crate) fn parse_rfc3339(text: &str) -> (r: Option<(i64, u32)>)
    ensures
        r == rfc3339_instant(text@),
{
    let t = chrono::DateTime::parse_from_rfc3339(text).ok()?;
    Some((t.timestamp(), t.timestamp_subsec_nanos()))
}

/// `chrono::Local::now` with `DateTime::format`: the moment of local time as `YYYYMMDD-HHMMSS`. Claimed is
/// the form of the text; which moment it is depends on the clock.
#[verifier::external_body]
pub(crate) fn local_file_stamp() -> (r: String)
    ensures
        is_stamp(r@, '-'),
{
    chrono::Local::now().format("%Y%m%d-%H%M%S").to_string()
}

}
