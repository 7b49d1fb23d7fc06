//! Outside types that the library carries through, and the few outside calls
//! that only produce fresh values (identifiers, timestamps, empty payloads).

use chrono::{Datelike, Timelike};

use vstd::prelude::*;

use crate::domain::scheduler::UtcTime;
use crate::text::views;

verus! {

/// A JSON payload; the library carries it and never inspects it.
#[verifier::external_type_specification]
#[verifier::external_body]
pub struct ExJsonValue(serde_json::Value);

/// The current UTC time as RFC 3339 text.
///
/// Calls `chrono::Utc::now` and renders it with `to_rfc3339`. The result
/// depends on the clock, so nothing is stated of it.
#[verifier::external_body]
pub(crate) fn now_utc() -> String {
    chrono::Utc::now().to_rfc3339()
}

/// The current UTC time rendered with the pattern
/// `%Y-%m-%dT%H:%M:%S%.3fZ` (ISO 8601 with milliseconds).
///
/// Calls `chrono::Utc::now` and `format`. The pattern ends in the literal
/// `Z`, which `format` copies, so the text ends in `Z`; the rest depends on
/// the clock and is not stated.
#[verifier::external_body]
pub(crate) fn utc_timestamp_millis() -> (r: String)
    ensures
        r@.len() > 0,
        r@.last() == 'Z',
{
    chrono::Utc::now().format("%Y-%m-%dT%H:%M:%S%.3fZ").to_string()
}

/// The current instant.
///
/// Calls `chrono::Utc::now`, which on this platform reads the system clock
/// as a duration since the Unix epoch (whole seconds and the nanoseconds
/// below one second) and builds a `DateTime` from it, panicking before the
/// epoch or past the last year chrono represents (262142). Its
/// `timestamp` and `timestamp_subsec_nanos` give those two parts back. So
/// the seconds are at least 0 and below 8.3 * 10^12, and the nanoseconds
/// below one billion; the rest depends on the clock and is not stated.
#[verifier::external_body]
pub(crate) fn utc_now() -> (r: UtcTime)
    ensures
        0 <= r.secs < 8_300_000_000_000,
        r.nanos < 1_000_000_000,
{
    let t = chrono::Utc::now();
    UtcTime { secs: t.timestamp(), nanos: t.timestamp_subsec_nanos() }
}

/// The UTC calendar reading of the instant `secs` seconds after the Unix
/// epoch: minute, hour, day of month, month and day of week (Sunday = 0),
/// or `None` where chrono cannot represent the instant.
pub uninterp spec fn utc_calendar(secs: i64) -> Option<(u32, u32, u32, u32, u32)>;

/// Reads the UTC calendar fields of an instant given in whole seconds.
///
/// Calls `chrono::DateTime::from_timestamp(secs, 0)`, which fails only
/// when the instant is out of chrono's range, and then `minute` (0 to 59),
/// `hour` (0 to 23), `day` (1 to 31), `month` (1 to 12) and
/// `weekday().num_days_from_sunday()` (0 to 6), as their documentation
/// gives the ranges. In UTC the reading depends on `secs` alone and is
/// named `utc_calendar`.
#[verifier::external_body]
pub(crate) fn utc_calendar_fields(secs: i64) -> (r: Option<(u32, u32, u32, u32, u32)>)
    ensures
        r == utc_calendar(secs),
        r matches Some(f) ==> f.0 < 60 && f.1 < 24 && 1 <= f.2 <= 31 && 1 <= f.3 <= 12 && f.4 < 7,
{
    match chrono::DateTime::from_timestamp(secs, 0) {
        Some(t) => Some((t.minute(), t.hour(), t.day(), t.month(), t.weekday().num_days_from_sunday())),
        None => None,
    }
}

/// A fresh random identifier in the hyphenated UUID text form.
///
/// Calls `uuid::Uuid::new_v4` and renders it with `to_string`, whose
/// documented hyphenated form has 36 characters. Nothing else is stated:
/// the value is random.
#[verifier::external_body]
pub(crate) fn new_uuid_string() -> (r: String)
    ensures
        r@.len() == 36,
{
    uuid::Uuid::new_v4().to_string()
}

/// The JSON array holding the given values, in order.
pub uninterp spec fn json_array(items: Seq<serde_json::Value>) -> serde_json::Value;

/// Wraps values into a JSON array.
///
/// Calls `serde_json::Value::Array`; the value depends on the items alone
/// and is named `json_array`.
#[verifier::external_body]
pub(crate) fn json_array_value(items: Vec<serde_json::Value>) -> (r: serde_json::Value)
    ensures
        r == json_array(items@),
{
    serde_json::Value::Array(items)
}

/// The lower-case form of a text, as `str::to_lowercase` gives it.
pub uninterp spec fn lowercase(s: Seq<char>) -> Seq<char>;

/// The text holds ASCII characters only.
pub open spec fn is_ascii_text(s: Seq<char>) -> bool {
    forall|i: int| 0 <= i < s.len() ==> (#[trigger] s[i] as u32) < 128
}

/// An ASCII character in lower case: `A` to `Z` become `a` to `z`.
pub open spec fn ascii_lower_char(c: char) -> char {
    if 'A' <= c && c <= 'Z' {
        ((c as u32) + 32) as char
    } else {
        c
    }
}

/// An ASCII text in lower case.
pub open spec fn ascii_lower(s: Seq<char>) -> Seq<char> {
    s.map_values(|c: char| ascii_lower_char(c))
}

/// The lower-case form of `s`.
///
/// Calls `str::to_lowercase`, which maps each character by Unicode's
/// lower-case mapping; the result depends on the text alone and is named
/// `lowercase`. On ASCII characters that mapping turns `A` to `Z` into `a`
/// to `z` and keeps every other character, and no ASCII character takes
/// part in the context-dependent rule (which concerns the Greek sigma), so
/// an ASCII text is lowered character by character.
#[verifier::external_body]
pub(crate) fn to_lowercase(s: &str) -> (r: String)
    ensures
        r@ == lowercase(s@),
        is_ascii_text(s@) ==> r@ == ascii_lower(s@),
{
    s.to_lowercase()
}

/// The path `p` joined onto `parent`, as `Path::join` builds it.
pub uninterp spec fn joined_path(parent: Seq<char>, p: Seq<char>) -> Seq<char>;

/// `parent` joined with `p`.
///
/// Calls `std::path::Path::join` and renders the result with
/// `to_string_lossy`; both texts are valid UTF-8, so the rendering is exact.
/// The result depends on the two texts alone and is named `joined_path`.
#[verifier::external_body]
pub(crate) fn join_path(parent: &str, p: &str) -> (r: String)
    ensures
        r@ == joined_path(parent@, p@),
{
    std::path::Path::new(parent).join(p).to_string_lossy().into_owned()
}

/// The platform's data directory, if it has one.
///
/// Calls `dirs::data_dir` and renders the path with `to_string_lossy`. The
/// answer depends on the platform and the environment, so nothing is
/// stated of it.
#[verifier::external_body]
pub(crate) fn platform_data_dir() -> Option<String> {
    match dirs::data_dir() {
        Some(p) => Some(p.to_string_lossy().into_owned()),
        None => None,
    }
}

/// Whether standard output is a terminal.
///
/// Calls `std::io::IsTerminal::is_terminal` on standard output; the answer
/// depends on how the process was started, so nothing is stated of it.
#[verifier::external_body]
pub(crate) fn stdout_is_terminal() -> bool {
    std::io::IsTerminal::is_terminal(&std::io::stdout())
}

/// The entries of a JSON object, as `serde_json` holds them.
#[verifier::external_type_specification]
#[verifier::external_body]
#[verifier::reject_recursive_types(K)]
#[verifier::reject_recursive_types(V)]
pub struct ExJsonMap<K, V>(serde_json::Map<K, V>);

/// The JSON string holding the text `s`.
pub uninterp spec fn json_text(s: Seq<char>) -> serde_json::Value;

/// Builds the JSON string holding `s`.
///
/// Calls `serde_json::Value::String` on a copy of `s`; the value depends
/// on the text alone and is named `json_text`.
#[verifier::external_body]
pub(crate) fn json_text_value(s: &str) -> (r: serde_json::Value)
    ensures
        r == json_text(s@),
{
    serde_json::Value::String(s.to_string())
}

/// The JSON number `n`, from a signed integer.
pub uninterp spec fn json_i64(n: i64) -> serde_json::Value;

/// Builds the JSON number `n`.
///
/// Calls `serde_json::Value::from` on the `i64`; the value depends on `n`
/// alone and is named `json_i64`.
#[verifier::external_body]
pub(crate) fn json_i64_value(n: i64) -> (r: serde_json::Value)
    ensures
        r == json_i64(n),
{
    serde_json::Value::from(n)
}

/// The JSON number `n`, from an unsigned integer.
pub uninterp spec fn json_u64(n: u64) -> serde_json::Value;

/// Builds the JSON number `n`.
///
/// Calls `serde_json::Value::from` on the `u64`; the value depends on `n`
/// alone and is named `json_u64`.
#[verifier::external_body]
pub(crate) fn json_u64_value(n: u64) -> (r: serde_json::Value)
    ensures
        r == json_u64(n),
{
    serde_json::Value::from(n)
}

/// The entries of a JSON object map, by key.
pub uninterp spec fn json_fields(m: serde_json::Map<String, serde_json::Value>) -> Map<Seq<char>, serde_json::Value>;

/// An empty JSON object map.
///
/// Calls `serde_json::Map::new`, which holds no entries.
#[verifier::external_body]
pub(crate) fn json_map_new() -> (r: serde_json::Map<String, serde_json::Value>)
    ensures
        json_fields(r) =~= Map::empty(),
{
    serde_json::Map::new()
}

/// Sets the entry `key` of a JSON object map to `v`.
///
/// Calls `serde_json::Map::insert`, which adds the entry or replaces the
/// value of an existing one.
#[verifier::external_body]
pub(crate) fn json_map_insert(m: &mut serde_json::Map<String, serde_json::Value>, key: &str, v: serde_json::Value)
    ensures
        json_fields(*final(m)) == json_fields(*old(m)).insert(key@, v),
{
    m.insert(key.to_string(), v);
}

/// The JSON object with the given entries.
pub uninterp spec fn json_object(fields: Map<Seq<char>, serde_json::Value>) -> serde_json::Value;

/// The text of the entry `key` of a JSON value: present when the value is
/// an object whose entry `key` is a string.
pub uninterp spec fn json_str_field(v: serde_json::Value, key: Seq<char>) -> Option<Seq<char>>;

/// Wraps a JSON object map into a JSON value.
///
/// Calls `serde_json::Value::Object`; the value depends on the entries
/// alone and is named `json_object`. Reading an entry back (`Value::get`,
/// which looks the key up in the map, then `Value::as_str`) gives the text
/// of an entry that holds a JSON string.
#[verifier::external_body]
pub(crate) fn json_object_value(m: serde_json::Map<String, serde_json::Value>) -> (r: serde_json::Value)
    ensures
        r == json_object(json_fields(m)),
        forall|k: Seq<char>, t: Seq<char>|
            #![trigger json_str_field(r, k), json_text(t)]
            json_fields(m).contains_key(k) && json_fields(m)[k] == json_text(t) ==> json_str_field(r, k) == Some(t),
{
    serde_json::Value::Object(m)
}

/// Reads the entry `key` of a JSON value as text.
///
/// Calls `serde_json::Value::get(key)` and then `Value::as_str`; the
/// outcome depends on the value and the key alone and is named
/// `json_str_field`.
#[verifier::external_body]
pub(crate) fn json_get_text(v: &serde_json::Value, key: &str) -> (r: Option<String>)
    ensures
        match r {
            Some(s) => json_str_field(*v, key@) == Some(s@),
            None => json_str_field(*v, key@) is None,
        },
{
    match v.get(key) {
        Some(field) => match field.as_str() {
            Some(t) => Some(t.to_string()),
            None => None,
        },
        None => None,
    }
}

/// The duration of `secs` whole seconds, as `Duration::from_secs` builds it.
pub uninterp spec fn secs_duration(secs: u64) -> std::time::Duration;

/// Builds a duration of whole seconds.
///
/// Calls `std::time::Duration::from_secs`, which depends on its argument
/// alone; the result is named `secs_duration(secs)`, and its length is
/// `secs` seconds.
#[verifier::external_body]
pub(crate) fn duration_from_secs(secs: u64) -> (r: std::time::Duration)
    ensures
        r == secs_duration(secs),
        nanos_of(r) == secs * 1_000_000_000,
{
    std::time::Duration::from_secs(secs)
}

/// The length of a duration in whole nanoseconds, as `Duration::as_nanos`
/// reads it.
pub uninterp spec fn nanos_of(d: std::time::Duration) -> u128;

/// The longest duration, `u64::MAX` seconds and 999 999 999 nanoseconds,
/// in nanoseconds.
pub open spec fn max_duration_nanos() -> int {
    18_446_744_073_709_551_615int * 1_000_000_000 + 999_999_999
}

/// Reads a duration's length in nanoseconds.
///
/// Calls `std::time::Duration::as_nanos`, whose result depends on the
/// duration alone (named `nanos_of`); a `Duration` holds at most `u64::MAX`
/// seconds and 999 999 999 nanoseconds, so the reading is at most
/// `max_duration_nanos()`.
#[verifier::external_body]
pub(crate) fn duration_nanos(d: &std::time::Duration) -> (r: u128)
    ensures
        r == nanos_of(*d),
        r <= max_duration_nanos(),
{
    d.as_nanos()
}

/// Builds the duration of `secs` seconds and `nanos` nanoseconds.
///
/// Calls `std::time::Duration::new`, which carries whole seconds out of
/// `nanos` and panics only when that carry overflows the seconds; with
/// `nanos` below one billion there is no carry, and the duration is
/// `secs * 10^9 + nanos` nanoseconds long.
#[verifier::external_body]
pub(crate) fn duration_new(secs: u64, nanos: u32) -> (r: std::time::Duration)
    requires
        nanos < 1_000_000_000,
    ensures
        nanos_of(r) == secs * 1_000_000_000 + nanos,
{
    std::time::Duration::new(secs, nanos)
}

/// The JSON `null` value (`serde_json::Value::Null`).
///
/// `Value` is opaque to the library, so its content is not stated.
#[verifier::external_body]
pub(crate) fn json_null() -> serde_json::Value {
    serde_json::Value::Null
}

} // verus!

verus! {

/// `Value::clone` makes a deep copy, equal to the value cloned.
pub assume_specification[ <serde_json::Value as Clone>::clone ](v: &serde_json::Value) -> (r: serde_json::Value)
    ensures
        r == *v,
;

/// `Duration` is `Copy`; its `clone` returns an equal value.
pub assume_specification[ <std::time::Duration as Clone>::clone ](d: &std::time::Duration) -> (r: std::time::Duration)
    ensures
        r == *d,
;

} // verus!
