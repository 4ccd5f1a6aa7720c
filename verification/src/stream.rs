//! The plan for the durable stream: the settings a stream is created with,
//! and the connect-retry policy. Talking to the stream backend is the
//! embedding process's work; the values it uses come from here.

use vstd::prelude::*;

use crate::text;

verus! {

/// The retention bound on record count.
pub const STREAM_MAX_MESSAGES: i64 = 100_000;

/// The retention bound on record age, in seconds: seven days.
pub const STREAM_MAX_AGE_SECS: u64 = 604_800;

/// The delay between connection attempts, in milliseconds.
pub const RETRY_DELAY_MS: u64 = 500;

/// What a stream is created with.
pub struct StreamSettings {
    pub name: String,
    pub subject_pattern: String,
    pub max_messages: i64,
    pub max_age_secs: u64,
}

/// The settings for a stream of the given name: it captures the subjects
/// `<name>.*`, bounded by count and age, file-backed on the server side.
pub fn stream_settings(name: &str) -> (r: StreamSettings)
    ensures
        r.name@ == name@,
        r.subject_pattern@ == name@ + ".*"@,
        r.max_messages == STREAM_MAX_MESSAGES,
        r.max_age_secs == STREAM_MAX_AGE_SECS,
{
    StreamSettings {
        name: name.to_owned(),
        subject_pattern: text::concat_str(name, ".*"),
        max_messages: STREAM_MAX_MESSAGES,
        max_age_secs: STREAM_MAX_AGE_SECS,
    }
}

/// What to do after a failed connection attempt.
pub enum RetryDecision {
    /// Wait this many milliseconds and try again.
    Wait { delay_ms: u64 },
    /// Give up.
    Stop,
}

/// The bounded linear retry schedule: after attempt `attempt` of
/// `max_retries`, wait half a second and retry while attempts remain.
pub fn next_retry(attempt: u32, max_retries: u32) -> (r: RetryDecision)
    ensures
        attempt < max_retries ==> r == (RetryDecision::Wait { delay_ms: RETRY_DELAY_MS as u64 }),
        attempt >= max_retries ==> r == RetryDecision::Stop,
{
    if attempt < max_retries {
        RetryDecision::Wait { delay_ms: RETRY_DELAY_MS }
    } else {
        RetryDecision::Stop
    }
}

} // verus!
