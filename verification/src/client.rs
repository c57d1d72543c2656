//! The decisions of a client: its identity, the connection handshake, where
//! each received message goes, the requests it sends and what their replies
//! mean. The socket, the tasks and the waiting stay with the caller, which
//! performs what these functions decide.
use vstd::prelude::*;
use vstd::string::StringSliceAdditionalSpecFns;
use vstd::utf8::encode_utf8;
use crate::comm_data::CommData;
use crate::error::Error;
use crate::json::{quoted, JsonObject, JsonValue};
use crate::message::Message;
use crate::security::{
    compute_signature, hash_secret, hex_lower, hmac_sha256, lemma_signing_text_of_challenge, sha256,
    signature_of,
};
use crate::table::KeyedTable;
use crate::text::is_lower_hex_digit;

verus! {

broadcast use vstd::string::group_string_axioms;

/// `uuid::Uuid::new_v4` written out by its `Display` impl: random, in the
/// hyphenated lower-case form `xxxxxxxx-xxxx-xxxx-xxxx-xxxxxxxxxxxx` of 36
/// ASCII characters, with hyphens at positions 8, 13, 18 and 23 and
/// lower-case hexadecimal digits elsewhere.
#[verifier::external_body]
fn new_uuid_text() -> (u: String)
    ensures
        u@.len() == 36,
        u.is_ascii(),
        forall|i: int|
            0 <= i < 36 ==> if i == 8 || i == 13 || i == 18 || i == 23 {
                u@[i] == '-'
            } else {
                is_lower_hex_digit(#[trigger] u@[i])
            },
{
    uuid::Uuid::new_v4().to_string()
}

/// The client id made from a UUID's text: `cli-` and its first 8 characters.
pub fn client_id_from_uuid(uuid: &str) -> (id: String)
    requires
        uuid.is_ascii(),
        uuid@.len() >= 8,
    ensures
        id@ == "cli-"@ + uuid@.take(8),
{
    let mut id = String::from_str("cli-");
    id.append(uuid.substring_ascii(0, 8));
    id
}

/// The id a client goes by: the given one, or `cli-` and the first 8
/// characters of a random UUID, which are lower-case hexadecimal digits.
pub fn resolve_client_id(client_id: Option<String>) -> (id: String)
    ensures
        match client_id {
            Some(c) => id == c,
            None => id@.len() == 12 && id@.take(4) == "cli-"@ && forall|i: int|
                4 <= i < 12 ==> is_lower_hex_digit(#[trigger] id@[i]),
        },
{
    match client_id {
        Some(c) => c,
        None => {
            let u = new_uuid_text();
            let id = client_id_from_uuid(u.as_str());
            proof {
                reveal_strlit("cli-");
                assert(id@.take(4) =~= "cli-"@);
                assert forall|i: int| 4 <= i < 12 implies is_lower_hex_digit(#[trigger] id@[i]) by {
                    assert(id@[i] == u@[i - 4]);
                }
            }
            id
        },
    }
}

/// The message with which a client introduces itself.
pub fn identify_message(client_id: String) -> (m: Message)
    ensures
        m matches Message::Identify { client_id: c, mode } && c == client_id && mode@ == "client"@,
{
    Message::Identify { client_id, mode: crate::comm_data::default_mode() }
}

/// The proof a client gives of its connection secret for a challenge: the
/// signature of `{"challenge": challenge}` under the hex SHA-256 hash of the
/// secret.
pub open spec fn connection_proof(secret: Seq<u8>, challenge: Seq<char>) -> Seq<char> {
    hex_lower(
        hmac_sha256(
            encode_utf8(hex_lower(sha256(secret))),
            encode_utf8("challenge"@ + seq![':'] + quoted(challenge)),
        ),
    )
}

/// The proof of a secret for a challenge is the signature of the message
/// that holds only the challenge, under the lower-case hex SHA-256 hash of
/// the whole secret (the text `hash_secret` gives).
pub proof fn law_connection_proof_is_challenge_signature(
    secret: Seq<u8>,
    msg: JsonObject,
    challenge: String,
)
    requires
        msg.members().len() == 1,
        msg.members()[0].0@ == "challenge"@,
        msg.members()[0].1 == JsonValue::String(challenge),
    ensures
        connection_proof(secret, challenge@) == signature_of(
            encode_utf8(hex_lower(sha256(secret))),
            msg,
        ),
{
    lemma_signing_text_of_challenge(msg, challenge);
}

/// Answers a connection challenge with the proof of the secret.
pub fn handshake_proof(secret: &str, challenge: String) -> (proof: String)
    ensures
        proof@ == connection_proof(secret.spec_bytes(), challenge@),
{
    let secret_hash = hash_secret(secret);
    let mut msg = JsonObject::new();
    let key = String::from_str("challenge");
    let ghost c = challenge;
    msg.insert(key, JsonValue::String(challenge));
    proof {
        assert(msg.members().len() == 1);
        lemma_signing_text_of_challenge(msg, c);
    }
    compute_signature(secret_hash.as_str().as_bytes(), &msg)
}

/// What a client does with the server's reply to its introduction.
pub enum HandshakeStep {
    /// Send this proof of the connection secret, then read the verdict.
    Prove(Message),
    /// The server accepted the client and goes by this id.
    Identified(String),
    /// The handshake failed.
    Failed(Error),
}

/// The outcome of the server's verdict on a client: its id, or why it
/// refused.
pub fn identification_result(reply: Message) -> (r: Result<String, Error>)
    ensures
        match reply {
            Message::Identified { server_id, .. } => r == Ok::<String, Error>(server_id),
            Message::Error { message, .. } => r == Err::<String, Error>(Error::Connection(message)),
            _ => r matches Err(Error::Connection(m)) && m@
                == "Unexpected message during identification"@,
        },
{
    match reply {
        Message::Identified { server_id, .. } => Ok(server_id),
        Message::Error { message, .. } => Err(Error::Connection(message)),
        _ => Err(Error::Connection(String::from_str("Unexpected message during identification"))),
    }
}

/// The step a client takes on the first reply to its introduction: a
/// challenge is answered with the proof of the secret (and fails where no
/// secret is set); any other reply is the verdict.
pub fn on_identify_reply(reply: Message, secret: Option<&str>) -> (step: HandshakeStep)
    ensures
        match reply {
            Message::ConnChallenge { challenge } => match secret {
                Some(s) => step matches HandshakeStep::Prove(Message::ConnProof { proof }) && proof@
                    == connection_proof(s.spec_bytes(), challenge@),
                None => step matches HandshakeStep::Failed(Error::Auth(m)) && m@
                    == "Server required connection secret but none provided"@,
            },
            Message::Identified { server_id, .. } => step == HandshakeStep::Identified(server_id),
            Message::Error { message, .. } => step == HandshakeStep::Failed(
                Error::Connection(message),
            ),
            _ => step matches HandshakeStep::Failed(Error::Connection(m)) && m@
                == "Unexpected message during identification"@,
        },
{
    match reply {
        Message::ConnChallenge { challenge } => match secret {
            Some(s) => HandshakeStep::Prove(Message::ConnProof { proof: handshake_proof(s, challenge) }),
            None => HandshakeStep::Failed(
                Error::Auth(String::from_str("Server required connection secret but none provided")),
            ),
        },
        other => match identification_result(other) {
            Ok(server_id) => HandshakeStep::Identified(server_id),
            Err(e) => HandshakeStep::Failed(e),
        },
    }
}

/// Where a received message goes.
pub enum Route {
    /// A reply to request `request_id`; `is_stream` when it is a stream chunk.
    Response { request_id: String, is_stream: bool, message: Message },
    /// An error reply to request `request_id`.
    Failure { request_id: String, message: Message },
    /// A call for a provider of `channel`.
    Call { channel: String, data: CommData },
    /// A broadcast, send or receive for the listeners of `channel`.
    Receive { channel: String, data: CommData },
    /// A heartbeat to answer with `Pong`.
    Pong,
    /// Nothing to do.
    Ignore,
}

/// Sorts a received message: replies with a request id go to the request,
/// calls and deliveries to their channel, pings are answered, and the rest
/// is dropped.
pub fn route_message(msg: Message) -> (r: Route)
    ensures
        match msg {
            Message::Response { data, error } => match data.request_id {
                Some(rid) => r matches Route::Response { request_id, is_stream, message }
                    && request_id == rid && is_stream == data.is_stream && message
                    == (Message::Response { data, error }),
                None => r is Ignore,
            },
            Message::Error { request_id, message } => match request_id {
                Some(rid) => r matches Route::Failure { request_id: q, message: m } && q == rid
                    && m == (Message::Error { request_id, message }),
                None => r is Ignore,
            },
            Message::Call { data } => r matches Route::Call { channel, data: d } && channel
                == data.channel && d == data,
            Message::Broadcast { data } => r matches Route::Receive { channel, data: d } && channel
                == data.channel && d == data,
            Message::Send { data } => r matches Route::Receive { channel, data: d } && channel
                == data.channel && d == data,
            Message::Receive { data } => r matches Route::Receive { channel, data: d } && channel
                == data.channel && d == data,
            Message::Ping => r is Pong,
            _ => r is Ignore,
        },
{
    match msg {
        Message::Response { data, error } => match &data.request_id {
            Some(rid) => {
                let request_id = rid.clone();
                let is_stream = data.is_stream;
                Route::Response { request_id, is_stream, message: Message::Response { data, error } }
            },
            None => Route::Ignore,
        },
        Message::Error { request_id, message } => match &request_id {
            Some(rid) => {
                let q = rid.clone();
                Route::Failure { request_id: q, message: Message::Error { request_id, message } }
            },
            None => Route::Ignore,
        },
        Message::Call { data } => {
            let channel = data.channel.clone();
            Route::Call { channel, data }
        },
        Message::Broadcast { data } => {
            let channel = data.channel.clone();
            Route::Receive { channel, data }
        },
        Message::Send { data } => {
            let channel = data.channel.clone();
            Route::Receive { channel, data }
        },
        Message::Receive { data } => {
            let channel = data.channel.clone();
            Route::Receive { channel, data }
        },
        Message::Ping => Route::Pong,
        _ => Route::Ignore,
    }
}

/// Whether a reply goes to an open stream: it is a stream chunk and a stream
/// is open for its request. Any other reply goes to the pending call.
pub fn reply_goes_to_stream<S>(streams: &KeyedTable<S>, request_id: &str, is_stream: bool) -> (r:
    bool)
    ensures
        r == (is_stream && streams@.contains_key(request_id@)),
{
    is_stream && streams.contains_key(request_id)
}

/// Closes the stream of a request after a chunk went to it, where the chunk
/// could not be handed over or was the last one. Returns whether it closed.
pub fn after_stream_chunk<S>(
    streams: &mut KeyedTable<S>,
    request_id: &str,
    handed_over: bool,
    is_final: bool,
) -> (closed: bool)
    ensures
        closed == (!handed_over || is_final),
        final(streams)@ == if closed {
            old(streams)@.remove(request_id@)
        } else {
            old(streams)@
        },
{
    if !handed_over || is_final {
        streams.remove(request_id);
        true
    } else {
        false
    }
}

/// The request that registers a client on a channel.
pub fn register_channel_message(request_id: String, client_id: String, channel: String) -> (m:
    Message)
    ensures
        m == (Message::Register {
            request_id: Some(request_id),
            client_id,
            channel,
            is_provider: false,
            event: None,
            is_stream: None,
            is_group: None,
            param_schema: None,
            return_schema: None,
            proof: None,
            challenge_id: None,
        }),
{
    Message::Register {
        request_id: Some(request_id),
        client_id,
        channel,
        is_provider: false,
        event: None,
        is_stream: None,
        is_group: None,
        param_schema: None,
        return_schema: None,
        proof: None,
        challenge_id: None,
    }
}

/// What the reply to a channel registration means: a response opens the
/// channel, an error refuses it with the server's text, and anything else
/// (or no reply) fails it.
pub fn register_outcome(reply: Option<Message>) -> (r: Result<(), Error>)
    ensures
        match reply {
            Some(Message::Response { .. }) => r is Ok,
            Some(Message::Error { message, .. }) => r == Err::<(), Error>(Error::Connection(message)),
            _ => r matches Err(Error::Connection(m)) && m@ == "Failed to register channel"@,
        },
{
    match reply {
        Some(Message::Response { .. }) => Ok(()),
        Some(Message::Error { message, .. }) => Err(Error::Connection(message)),
        _ => Err(Error::Connection(String::from_str("Failed to register channel"))),
    }
}

/// The record of a call to `event` on `channel`, from `sender_id`, under
/// request id `request_id`, naming the server where its id is known.
pub fn call_request(
    channel: String,
    event: String,
    data: JsonValue,
    request_id: String,
    sender_id: String,
    server_id: Option<&String>,
) -> (cd: CommData)
    ensures
        cd.channel == channel,
        cd.event == event,
        cd.data == data,
        cd.request_id == Some(request_id),
        cd.sender_id == sender_id,
        match server_id {
            Some(s) => cd.server_id@ == s@,
            None => cd.server_id@ == Seq::<char>::empty(),
        },
        cd.metadata.members() == Seq::<(String, JsonValue)>::empty(),
        cd.target_id is None,
        cd.path@ == Seq::<String>::empty(),
        !cd.is_stream,
        !cd.is_final,
        cd.signature is None,
        cd.origin_server_id is None,
        cd.sub_name is None,
        cd.mode@ == "client"@,
{
    let mut cd = CommData::new();
    cd.channel = channel;
    cd.event = event;
    cd.data = data;
    cd.request_id = Some(request_id);
    cd.sender_id = sender_id;
    if let Some(sid) = server_id {
        cd.server_id = sid.clone();
    }
    cd
}

/// What the reply to a call means: the response's record, or the error that
/// the response or an error reply carries; anything else (or no reply)
/// fails the call.
pub fn call_outcome(reply: Option<Message>) -> (r: Result<CommData, Error>)
    ensures
        match reply {
            Some(Message::Response { data, error }) => match error {
                Some(e) => r == Err::<CommData, Error>(Error::Call(e)),
                None => r == Ok::<CommData, Error>(data),
            },
            Some(Message::Error { message, .. }) => r == Err::<CommData, Error>(Error::Call(message)),
            _ => r matches Err(Error::Connection(m)) && m@ == "Call failed"@,
        },
{
    match reply {
        Some(Message::Response { data, error }) => match error {
            Some(e) => Err(Error::Call(e)),
            None => Ok(data),
        },
        Some(Message::Error { message, .. }) => Err(Error::Call(message)),
        _ => Err(Error::Connection(String::from_str("Call failed"))),
    }
}

/// The message that publishes `data` to subscription `sub_name` of
/// `channel`.
pub fn publish_message(channel: String, sub_name: String, data: JsonValue) -> (m: Message)
    ensures
        m == (Message::Publish { channel, sub_name, data }),
{
    Message::Publish { channel, sub_name, data }
}

/// The request that creates a subscription owned by the client.
pub fn add_subscription_message(request_id: String, channel: String, sub_name: String) -> (m:
    Message)
    ensures
        m == (Message::AddSubscription {
            channel,
            sub_name,
            return_schema: None,
            request_id: Some(request_id),
        }),
{
    Message::AddSubscription { channel, sub_name, return_schema: None, request_id: Some(request_id) }
}

/// The request that subscribes the client to a subscription.
pub fn subscribe_message(request_id: String, channel: String, sub_name: String) -> (m: Message)
    ensures
        m == (Message::Subscribe { channel, sub_name, request_id: Some(request_id) }),
{
    Message::Subscribe { channel, sub_name, request_id: Some(request_id) }
}

/// What the reply to a subscription request means: a response accepts it,
/// an error refuses it with the server's text, and anything else (or no
/// reply) fails with `failure`.
fn subscription_outcome(reply: Option<Message>, failure: &str) -> (r: Result<(), Error>)
    ensures
        match reply {
            Some(Message::Response { .. }) => r is Ok,
            Some(Message::Error { message, .. }) => r == Err::<(), Error>(Error::Call(message)),
            _ => r matches Err(Error::Connection(m)) && m@ == failure@,
        },
{
    match reply {
        Some(Message::Response { .. }) => Ok(()),
        Some(Message::Error { message, .. }) => Err(Error::Call(message)),
        _ => Err(Error::Connection(String::from_str(failure))),
    }
}

/// What the reply to an `add_subscription` request means.
pub fn add_subscription_outcome(reply: Option<Message>) -> (r: Result<(), Error>)
    ensures
        match reply {
            Some(Message::Response { .. }) => r is Ok,
            Some(Message::Error { message, .. }) => r == Err::<(), Error>(Error::Call(message)),
            _ => r matches Err(Error::Connection(m)) && m@ == "Add subscription failed"@,
        },
{
    subscription_outcome(reply, "Add subscription failed")
}

/// What the reply to a `subscribe` request means.
pub fn subscribe_outcome(reply: Option<Message>) -> (r: Result<(), Error>)
    ensures
        match reply {
            Some(Message::Response { .. }) => r is Ok,
            Some(Message::Error { message, .. }) => r == Err::<(), Error>(Error::Call(message)),
            _ => r matches Err(Error::Connection(m)) && m@ == "Subscribe failed"@,
        },
{
    subscription_outcome(reply, "Subscribe failed")
}

/// The error of sending while no connection is open.
pub fn not_connected() -> (e: Error)
    ensures
        e matches Error::Connection(m) && m@ == "Not connected"@,
{
    Error::Connection(String::from_str("Not connected"))
}

} // verus!
