//! The decisions of a channel: the names under which group events and
//! subscriptions are registered, the requests a provider sends, the reply a
//! call receives, and the listeners kept per event.
use vstd::prelude::*;
use crate::comm_data::CommData;
use crate::json::JsonValue;
use crate::message::Message;
use crate::table::KeyedTable;

verus! {

broadcast use vstd::string::group_string_axioms;

/// The event under which the data of subscription `sub_name` arrives:
/// `subscription.<sub_name>.data`.
pub fn subscription_event_name(sub_name: &str) -> (n: String)
    ensures
        n@ == "subscription."@ + sub_name@ + ".data"@,
{
    let mut n = String::from_str("subscription.");
    n.append(sub_name);
    n.append(".data");
    n
}

/// The name of event `event` of group `group`: `<group>.<event>`.
pub fn group_event_name(group: &str, event: &str) -> (n: String)
    ensures
        n@ == group@ + "."@ + event@,
{
    let mut n = String::from_str(group);
    n.append(".");
    n.append(event);
    n
}

/// The request that registers the client as provider of `event` on
/// `channel`, as a stream or not, inside a group or not.
pub fn provider_register_message(channel: String, event: String, is_stream: bool, is_group: bool) -> (m:
    Message)
    ensures
        m matches Message::Register {
            request_id: None,
            client_id,
            channel: c,
            is_provider: true,
            event: Some(e),
            is_stream: Some(s),
            is_group: Some(g),
            param_schema: None,
            return_schema: None,
            proof: None,
            challenge_id: None,
        } && client_id@ == Seq::<char>::empty() && c == channel && e == event && s == is_stream && g
            == is_group,
{
    Message::Register {
        request_id: None,
        client_id: String::new(),
        channel,
        is_provider: true,
        event: Some(event),
        is_stream: Some(is_stream),
        is_group: Some(is_group),
        param_schema: None,
        return_schema: None,
        proof: None,
        challenge_id: None,
    }
}

/// The reply to a call that a provider of `channel` handled: on success a
/// response that carries the result to the caller (`sender_id`), final
/// unless the event streams; on failure an error with the failure's text.
pub fn call_reply(
    channel: String,
    request_id: Option<String>,
    sender_id: String,
    is_stream: bool,
    outcome: Result<JsonValue, String>,
) -> (m: Message)
    ensures
        match outcome {
            Ok(v) => m matches Message::Response { data, error: None } && data.channel == channel
                && data.event@ == Seq::<char>::empty() && data.data == v && data.request_id
                == request_id && data.target_id == Some(sender_id) && data.is_stream == is_stream
                && data.is_final == !is_stream && data.sender_id@ == Seq::<char>::empty()
                && data.server_id@ == Seq::<char>::empty() && data.metadata.members() == Seq::<
                (String, JsonValue),
            >::empty() && data.path@ == Seq::<String>::empty() && data.signature is None
                && data.origin_server_id is None && data.sub_name is None && data.mode@ == "client"@,
            Err(text) => m == (Message::Error { request_id, message: text }),
        },
{
    match outcome {
        Ok(res) => {
            let mut cd = CommData::new();
            cd.channel = channel;
            cd.event = String::new();
            cd.data = res;
            cd.request_id = request_id;
            cd.target_id = Some(sender_id);
            cd.is_stream = is_stream;
            cd.is_final = !is_stream;
            Message::Response { data: cd, error: None }
        },
        Err(text) => Message::Error { request_id, message: text },
    }
}

/// Adds a listener for `event_name`, after those already there.
pub fn add_listener<T>(listeners: &mut KeyedTable<Vec<T>>, event_name: String, handler: T)
    ensures
        final(listeners)@.dom() == old(listeners)@.dom().insert(event_name@),
        final(listeners)@[event_name@]@ == (if old(listeners)@.contains_key(event_name@) {
            old(listeners)@[event_name@]@
        } else {
            Seq::<T>::empty()
        }).push(handler),
        forall|k: Seq<char>|
            k != event_name@ && #[trigger] old(listeners)@.contains_key(k) ==> final(listeners)@[k]
                == old(listeners)@[k],
{
    let mut handlers = match listeners.remove(event_name.as_str()) {
        Some(hs) => hs,
        None => Vec::new(),
    };
    handlers.push(handler);
    listeners.insert(event_name, handlers);
}

} // verus!
