//! The library's trusted boundary: thin wrappers around the outside crates
//! the engine relies on — clock and identifier generation, case folding,
//! and the JSON decoding of detector messages. Verus believes each
//! wrapper's contract; everything downstream of these contracts is proved.

use vstd::prelude::*;

use crate::pubsub::PubSubFrame;

verus! {

/// Relies on `chrono::Utc::now` and `DateTime::to_rfc3339`: a fresh
/// timestamp, different from call to call, so nothing is promised of it.
#[verifier::external_body]
pub fn now_rfc3339() -> String {
    chrono::Utc::now().to_rfc3339()
}

/// Relies on `chrono::Utc::now` and `DateTime::format` with `%Y%m%d`: the
/// current date, different from call to call, so nothing is promised of it.
#[verifier::external_body]
pub fn today_compact() -> String {
    chrono::Utc::now().format("%Y%m%d").to_string()
}

/// Relies on `chrono::Utc::now` and `DateTime::format` with
/// `%Y%m%d_%H%M%S`: the current instant, different from call to call, so
/// nothing is promised of it.
#[verifier::external_body]
pub fn now_compact() -> String {
    chrono::Utc::now().format("%Y%m%d_%H%M%S").to_string()
}

/// Relies on `uuid::Uuid::new_v4` and its `Display` impl: a random
/// identifier in the hyphenated form, which is always 36 characters of
/// ASCII.
#[verifier::external_body]
pub fn new_task_id() -> (r: String)
    ensures
        r@.len() == 36,
{
    uuid::Uuid::new_v4().to_string()
}

/// What `str::to_lowercase` returns: a function of the characters alone.
pub uninterp spec fn lower_of(s: Seq<char>) -> Seq<char>;

/// Relies on `str::to_lowercase`: the result depends on the characters
/// alone, and an empty string stays empty.
#[verifier::external_body]
pub fn lowercase(s: &str) -> (r: String)
    ensures
        r@ == lower_of(s@),
        s@.len() == 0 ==> r@.len() == 0,
{
    s.to_lowercase()
}

/// What decoding a PubSub frame from its JSON text yields: the frame's
/// type, topic and inner message, or nothing when the text is not such a
/// frame. A function of the text alone.
pub uninterp spec fn pubsub_frame_of(s: Seq<char>) -> Option<
    (Seq<char>, Option<Seq<char>>, Option<Seq<char>>),
>;

/// Relies on `serde_json::from_str` into `serde_json::Value` and the
/// `Value` accessors: decodes a PubSub frame `{"type": …, "data":
/// {"topic": …, "message": …}}`, requiring the `type` string and taking
/// the two `data` fields when they are strings.
#[verifier::external_body]
pub fn parse_pubsub_frame(text: &str) -> (r: Option<PubSubFrame>)
    ensures
        match r {
            Some(f) => pubsub_frame_of(text@) matches Some(parts) && f.msg_type@ == parts.0 && (
            match (f.topic, parts.1) {
                (Some(t), Some(p)) => t@ == p,
                (None, None) => true,
                _ => false,
            }) && (match (f.message, parts.2) {
                (Some(m), Some(p)) => m@ == p,
                (None, None) => true,
                _ => false,
            }),
            None => pubsub_frame_of(text@) is None,
        },
{
    let v: serde_json::Value = serde_json::from_str(text).ok()?;
    let msg_type = v.get("type")?.as_str()?.to_string();
    let data = v.get("data");
    let topic = data.and_then(|d| d.get("topic")).and_then(|t| t.as_str()).map(String::from);
    let message = data.and_then(|d| d.get("message")).and_then(|m| m.as_str()).map(String::from);
    Some(PubSubFrame { msg_type, topic, message })
}

/// What decoding a playback message from its JSON text yields: the
/// message's type, or nothing when the text is not such a message. A
/// function of the text alone.
pub uninterp spec fn playback_type_of(s: Seq<char>) -> Option<Seq<char>>;

/// Relies on `serde_json::from_str` into `serde_json::Value` and the
/// `Value` accessors: decodes `{"type": …}` from the inner playback
/// message, requiring the `type` string.
#[verifier::external_body]
pub fn parse_playback_type(text: &str) -> (r: Option<String>)
    ensures
        match r {
            Some(t) => playback_type_of(text@) == Some(t@),
            None => playback_type_of(text@) is None,
        },
{
    let v: serde_json::Value = serde_json::from_str(text).ok()?;
    Some(v.get("type")?.as_str()?.to_string())
}

/// What the liveness flag of a probe's JSON output is: `true` exactly when
/// the output carries `"is_live": true`. A function of the bytes alone.
pub uninterp spec fn is_live_flag_of(s: Seq<u8>) -> bool;

/// Relies on `serde_json::from_slice` into `serde_json::Value` and the
/// `Value` accessors: reads the `is_live` boolean of a probe's output,
/// anything missing or malformed counting as not live.
#[verifier::external_body]
pub fn extract_is_live(output: &[u8]) -> (r: bool)
    ensures
        r == is_live_flag_of(output@),
{
    let v: serde_json::Value = match serde_json::from_slice(output) {
        Ok(v) => v,
        Err(_) => serde_json::Value::Null,
    };
    v.get("is_live").and_then(|b| b.as_bool()).unwrap_or(false)
}

} // verus!
