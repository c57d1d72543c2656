//! The messages of the protocol.
use vstd::prelude::*;
use crate::comm_data::CommData;
use crate::json::{JsonObject, JsonValue};

verus! {

/// A message exchanged with the server. On the wire each one is a map whose
/// `type` field names the variant.
#[derive(Debug)]
pub enum Message {
    Identify { client_id: String, mode: String },
    Identified { client_id: String, server_id: String },
    ConnChallenge { challenge: String },
    ConnProof { proof: String },
    Register {
        request_id: Option<String>,
        client_id: String,
        channel: String,
        is_provider: bool,
        event: Option<String>,
        is_stream: Option<bool>,
        is_group: Option<bool>,
        param_schema: Option<JsonValue>,
        return_schema: Option<JsonValue>,
        proof: Option<String>,
        challenge_id: Option<String>,
    },
    Call { data: CommData },
    Response { data: CommData, error: Option<String> },
    Broadcast { data: CommData },
    Send { data: CommData },
    Receive { data: CommData },
    Publish { channel: String, sub_name: String, data: JsonValue },
    Subscribe { channel: String, sub_name: String, request_id: Option<String> },
    Unsubscribe { channel: String, sub_name: String, request_id: Option<String> },
    AddSubscription {
        channel: String,
        sub_name: String,
        return_schema: Option<JsonValue>,
        request_id: Option<String>,
    },
    RemoveSubscription { channel: String, sub_name: String, request_id: Option<String> },
    Error { request_id: Option<String>, message: String },
    Ping,
    Pong,
    AuthChallenge {
        channel: String,
        challenge: String,
        challenge_id: String,
        request_id: Option<String>,
    },
    ChannelSync { channel: String, events: JsonObject, subscriptions: JsonObject },
    MetadataUpdate {
        channel: String,
        name: String,
        stype: String,
        owner: Option<String>,
        param_schema: Option<JsonValue>,
        return_schema: Option<JsonValue>,
    },
}

} // verus!
