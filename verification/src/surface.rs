//! What an HTTP ping of a project's surface found.
use vstd::prelude::*;

use crate::text::{chars_of, lower_ascii_seq, lower_chars, string_of, trim, trim_chars};

verus! {

broadcast use vstd::string::group_string_axioms;

/// The outcome of one HTTP ping.
#[derive(Debug, Clone)]
pub enum PingOutcome {
    /// The server answered; any status counts, since a 403 or 500 is a live
    /// server saying something.
    Responded {
        /// HTTP status code as received.
        status: u16,
        /// Request start to response completion, whole milliseconds.
        ms: u32,
        /// The media type, parameters stripped, when one was sent.
        content_type: Option<String>,
    },
    /// No response; carries the transport error's own text.
    Failed(String),
}

/// The media type a `Content-Type` value reports: trimmed and lower-cased,
/// and absent rather than empty.
pub open spec fn media_type_spec(raw: Seq<char>) -> Option<Seq<char>> {
    let m = lower_ascii_seq(trim(raw));
    if m.len() == 0 {
        None
    } else {
        Some(m)
    }
}

/// The media type of a response, from its `Content-Type` value.
pub fn media_type(raw: &str) -> (r: Option<String>)
    ensures
        match media_type_spec(raw@) {
            None => r is None,
            Some(m) => r matches Some(s) && s@ == m,
        },
{
    let m = lower_chars(&trim_chars(&chars_of(raw)));
    if m.len() == 0 {
        None
    } else {
        Some(string_of(&m))
    }
}

/// Elapsed milliseconds as reported: capped at `u32::MAX`.
pub fn elapsed_ms(ms: u128) -> (r: u32)
    ensures
        r == if ms > u32::MAX { u32::MAX } else { ms as u32 },
{
    if ms > u32::MAX as u128 {
        u32::MAX
    } else {
        ms as u32
    }
}

} // verus!
