//! The data record that calls, replies, streams and broadcasts carry.
use vstd::prelude::*;
use crate::json::{JsonObject, JsonValue};
use std::time::{Duration, SystemTime, SystemTimeError, UNIX_EPOCH};

verus! {

broadcast use vstd::string::group_string_axioms;

#[verifier::external_type_specification]
#[verifier::external_body]
pub struct ExSystemTime(SystemTime);

#[verifier::external_type_specification]
#[verifier::external_body]
pub struct ExSystemTimeError(SystemTimeError);

/// `SystemTime::now`: the clock's current time; nothing is known of it.
#[verifier::external_body]
fn system_time_now() -> SystemTime {
    SystemTime::now()
}

/// `SystemTime::duration_since` the UNIX epoch: the time elapsed since then,
/// or an error where the clock stands before it; nothing is known of either.
#[verifier::external_body]
fn duration_since_unix_epoch(t: &SystemTime) -> core::result::Result<Duration, SystemTimeError> {
    t.duration_since(UNIX_EPOCH)
}

/// `Duration::as_secs`: the whole seconds of a duration; nothing is known of
/// a duration, so nothing is stated of them.
#[verifier::external_body]
fn duration_as_secs(d: &Duration) -> u64 {
    d.as_secs()
}

/// A timestamp from the whole seconds elapsed since the UNIX epoch, or 0
/// where the clock stands before the epoch (`None`).
pub fn timestamp_from(elapsed: Option<u64>) -> (t: u64)
    ensures
        t == match elapsed {
            Some(s) => s,
            None => 0,
        },
{
    match elapsed {
        Some(s) => s,
        None => 0,
    }
}

/// The current time in whole seconds since the UNIX epoch, or 0 where the
/// clock stands before the epoch (see `timestamp_from`).
pub fn default_timestamp() -> u64 {
    let now = system_time_now();
    let elapsed = match duration_since_unix_epoch(&now) {
        Ok(d) => Some(duration_as_secs(&d)),
        Err(_) => None,
    };
    timestamp_from(elapsed)
}

/// The mode that a client announces: `client`.
pub fn default_mode() -> (m: String)
    ensures
        m@ == "client"@,
{
    String::from_str("client")
}

/// The data record of a call, a reply, a stream chunk or a broadcast.
#[derive(Debug)]
pub struct CommData {
    pub sender_id: String,
    pub server_id: String,
    pub channel: String,
    pub event: String,
    pub data: JsonValue,
    pub timestamp: u64,
    pub metadata: JsonObject,
    pub request_id: Option<String>,
    pub target_id: Option<String>,
    pub path: Vec<String>,
    pub is_stream: bool,
    pub is_final: bool,
    pub signature: Option<String>,
    pub origin_server_id: Option<String>,
    pub sub_name: Option<String>,
    pub mode: String,
}

impl CommData {
    /// Every field is empty, absent, false or null, but the timestamp, and
    /// the mode is `client`.
    pub open spec fn is_blank(self) -> bool {
        &&& self.sender_id@ == Seq::<char>::empty()
        &&& self.server_id@ == Seq::<char>::empty()
        &&& self.channel@ == Seq::<char>::empty()
        &&& self.event@ == Seq::<char>::empty()
        &&& self.data is Null
        &&& self.metadata.members() == Seq::<(String, JsonValue)>::empty()
        &&& self.request_id is None
        &&& self.target_id is None
        &&& self.path@ == Seq::<String>::empty()
        &&& !self.is_stream
        &&& !self.is_final
        &&& self.signature is None
        &&& self.origin_server_id is None
        &&& self.sub_name is None
        &&& self.mode@ == "client"@
    }

    /// A blank record stamped with the current time.
    pub fn new() -> (d: CommData)
        ensures
            d.is_blank(),
    {
        Self::default()
    }
}

impl Default for CommData {
    /// A blank record stamped with the current time.
    fn default() -> (d: CommData)
        ensures
            d.is_blank(),
    {
        let timestamp = default_timestamp();
        CommData {
            sender_id: String::new(),
            server_id: String::new(),
            channel: String::new(),
            event: String::new(),
            data: JsonValue::Null,
            timestamp,
            metadata: JsonObject::new(),
            request_id: None,
            target_id: None,
            path: Vec::new(),
            is_stream: false,
            is_final: false,
            signature: None,
            origin_server_id: None,
            sub_name: None,
            mode: default_mode(),
        }
    }
}

} // verus!
