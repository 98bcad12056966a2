//! Moments in words.

use vstd::prelude::*;

verus! {

/// The patterns moments are written in.
pub open spec fn is_pattern(pattern: Seq<char>) -> bool {
    pattern == "%Y-%m-%d %H:%M UTC"@ || pattern == "%-d %b %Y"@ || pattern == "%Y-%m-%d"@
}

/// A moment written in a pattern, as chrono's `DateTime::format` writes it in
/// UTC; none where `DateTime::from_timestamp` takes no such moment.
pub uninterp spec fn written(secs: i64, nanos: u32, pattern: Seq<char>) -> Option<Seq<char>>;

/// `chrono::DateTime::from_timestamp`, and `format` on the moment it gives:
/// what they write depends on the moment and the pattern alone, and is what
/// [`written`] names. Which moments are too far away to be written, and the
/// digits of the others, are not stated.
#[verifier::external_body]
pub(crate) fn write_moment(secs: i64, nanos: u32, pattern: &str) -> (r: Option<String>)
    requires
        is_pattern(pattern@),
    ensures
        (match r {
            Some(words) => written(secs, nanos, pattern@) == Some(words@),
            None => written(secs, nanos, pattern@) is None,
        }),
{
    chrono::DateTime::from_timestamp(secs, nanos).map(|when| when.format(pattern).to_string())
}

/// A moment to the minute, in words.
pub open spec fn minute_words(secs: i64) -> Option<Seq<char>> {
    written(secs, 0, "%Y-%m-%d %H:%M UTC"@)
}

/// A moment to the minute, in words, if it is not too far away.
pub fn minute(secs: i64) -> (r: Option<String>)
    ensures
        (match r {
            Some(words) => minute_words(secs) == Some(words@),
            None => minute_words(secs) is None,
        }),
{
    write_moment(secs, 0, "%Y-%m-%d %H:%M UTC")
}

/// A moment's day, in words.
pub open spec fn day_words(secs: i64) -> Option<Seq<char>> {
    written(secs, 0, "%-d %b %Y"@)
}

/// A moment's day, in words, if it is not too far away.
pub fn day(secs: i64) -> (r: Option<String>)
    ensures
        (match r {
            Some(words) => day_words(secs) == Some(words@),
            None => day_words(secs) is None,
        }),
{
    write_moment(secs, 0, "%-d %b %Y")
}

/// A moment's date, in digits.
pub open spec fn date_words(secs: i64) -> Option<Seq<char>> {
    written(secs, 0, "%Y-%m-%d"@)
}

/// A moment's date, in digits, if it is not too far away.
pub fn date(secs: i64) -> (r: Option<String>)
    ensures
        (match r {
            Some(words) => date_words(secs) == Some(words@),
            None => date_words(secs) is None,
        }),
{
    write_moment(secs, 0, "%Y-%m-%d")
}

/// Times are written to the whole second, in the pattern of what they tell: a
/// minute with its date in UTC, a day by its month's short name, or a date.
pub proof fn times_are_written_in_their_patterns(secs: i64)
    ensures
        minute_words(secs) == written(secs, 0, "%Y-%m-%d %H:%M UTC"@),
        day_words(secs) == written(secs, 0, "%-d %b %Y"@),
        date_words(secs) == written(secs, 0, "%Y-%m-%d"@),
{
}

} // verus!
