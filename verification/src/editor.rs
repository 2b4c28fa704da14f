//! Timestamps and templates for entries that come out of the editor.

use crate::text::{
    chars_of, count_of, decimal, decimal_text, parse_count, replace_all, replaced, string_of,
};
use vstd::prelude::*;
use vstd::string::StringExecFns;

verus! {

/// Seconds by which a new timestamp is moved back.
pub const TIMESTAMP_SHIFT: u64 = 14400;

/// The timestamp written for the instant `secs` seconds after the epoch: the
/// decimal spelling of the seconds, moved back by four hours. None for an
/// instant within four hours of the epoch.
pub open spec fn shifted_timestamp(secs: u64) -> Option<Seq<char>> {
    if secs >= TIMESTAMP_SHIFT {
        Some(decimal_text((secs - TIMESTAMP_SHIFT) as nat))
    } else {
        None
    }
}

/// The timestamp written for the instant `secs` seconds after the epoch.
pub fn timestamp_text(secs: u64) -> (r: Option<String>)
    ensures
        match r {
            Some(s) => shifted_timestamp(secs) == Some(s@),
            None => shifted_timestamp(secs) is None,
        },
{
    if secs >= TIMESTAMP_SHIFT {
        Some(decimal(secs - TIMESTAMP_SHIFT))
    } else {
        None
    }
}

/// Calls `std::time::SystemTime::elapsed` on the Unix epoch and gives the
/// whole seconds of the result, or `None` when the clock stands before the
/// epoch. Nothing is claimed about the value: it is the time of the call.
#[verifier::external_body]
fn seconds_since_epoch() -> (r: Option<u64>) {
    match std::time::UNIX_EPOCH.elapsed() {
        Ok(elapsed) => Some(elapsed.as_secs()),
        Err(_) => None,
    }
}

/// The timestamp for an entry made now, or `None` when the clock stands
/// within four hours of the epoch or before it.
pub fn get_timestamp() -> (r: Option<String>)
    ensures
        r is Some ==> exists|secs: u64| shifted_timestamp(secs) == Some(r->0@),
{
    match seconds_since_epoch() {
        Some(secs) => timestamp_text(secs),
        None => None,
    }
}

/// How the instant `secs` seconds after the epoch is written, in UTC: the
/// day as month, day and year, and the time of day on the twelve-hour clock.
/// None for an instant that the calendar cannot represent.
pub uninterp spec fn moment_text(secs: int) -> Option<(Seq<char>, Seq<char>)>;

/// Calls `chrono::DateTime::from_timestamp` with zero nanoseconds, then
/// `format` on the result, once with the pattern for the day and once with
/// the pattern for the time. The contract only gives the two texts their
/// name.
#[verifier::external_body]
fn moment_labels(secs: i64) -> (r: Option<(String, String)>)
    ensures
        match r {
            Some(labels) => moment_text(secs as int) == Some((labels.0@, labels.1@)),
            None => moment_text(secs as int) is None,
        },
{
    match chrono::DateTime::from_timestamp(secs, 0) {
        Some(moment) => Some(
            (moment.format("%m-%d-%Y").to_string(), moment.format("%I:%M%P").to_string()),
        ),
        None => None,
    }
}

/// How an unsigned timestamp is written: nothing once the seconds no longer
/// fit a signed 64-bit number.
pub open spec fn labels_of(secs: u64) -> Option<(Seq<char>, Seq<char>)> {
    if secs > i64::MAX {
        None
    } else {
        moment_text(secs as int)
    }
}

/// The day and the time of day of a timestamp, as they are shown.
pub fn timestamp_labels(secs: u64) -> (r: Option<(String, String)>)
    ensures
        match r {
            Some(labels) => labels_of(secs) == Some((labels.0@, labels.1@)),
            None => labels_of(secs) is None,
        },
{
    if secs > 0x7fff_ffff_ffff_ffff {
        None
    } else {
        moment_labels(secs as i64)
    }
}

/// The content with `<DATE>` replaced by `date` throughout, and then
/// `<TIME>` by `time`.
pub open spec fn filled_in(content: Seq<char>, date: Seq<char>, time: Seq<char>) -> Seq<char> {
    replaced(replaced(content, "<DATE>"@, date), "<TIME>"@, time)
}

/// Fills the day and the time into the content of a new entry.
pub fn fill_in(content: &str, date: &str, time: &str) -> (r: String)
    ensures
        r@ == filled_in(content@, date@, time@),
{
    let text = chars_of(content);
    let dated = replace_all(&text, &chars_of("<DATE>"), &chars_of(date));
    let timed = replace_all(&dated, &chars_of("<TIME>"), &chars_of(time));
    string_of(&timed)
}

/// Fills the day and the time of `timestamp` into the content of an entry.
/// None where the timestamp is no count of seconds or names an instant that
/// the calendar cannot represent.
pub fn post_process(content: String, timestamp: String) -> (r: Option<String>)
    ensures
        match count_of(timestamp@) {
            Some(secs) => match labels_of(secs as u64) {
                Some((date, time)) => r is Some && r->0@ == filled_in(content@, date, time),
                None => r is None,
            },
            None => r is None,
        },
{
    match parse_count(timestamp.as_str()) {
        Some(secs) => match timestamp_labels(secs) {
            Some(labels) => Some(fill_in(content.as_str(), labels.0.as_str(), labels.1.as_str())),
            None => None,
        },
        None => None,
    }
}

/// The name of the file that the editor works on, in a directory that holds
/// `existing` such files already.
pub open spec fn feeling_name_text(existing: u64) -> Seq<char> {
    if existing == 0 {
        "FEELING.md"@
    } else {
        "FEELING"@ + decimal_text(existing as nat) + ".md"@
    }
}

/// The name of the file that the editor works on: `FEELING.md` in a
/// directory without such files, else `FEELING`, the number of those that
/// are there, `.md`.
pub fn feeling_name(existing: u64) -> (r: String)
    ensures
        r@ == feeling_name_text(existing),
{
    if existing == 0 {
        String::from_str("FEELING.md")
    } else {
        let mut name = String::from_str("FEELING");
        name.append(decimal(existing).as_str());
        name.append(".md");
        name
    }
}

} // verus!
