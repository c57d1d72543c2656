use commipcrs::channel::{add_listener, call_reply, group_event_name, provider_register_message, subscription_event_name};
use commipcrs::client::{
    add_subscription_message, add_subscription_outcome, after_stream_chunk, call_outcome, call_request,
    client_id_from_uuid, handshake_proof, identification_result, identify_message, not_connected,
    on_identify_reply, register_channel_message, register_outcome, reply_goes_to_stream, resolve_client_id,
    route_message, subscribe_message, subscribe_outcome, HandshakeStep, Route,
};
use commipcrs::frame::{encode_frame, frame_payload_len};
use commipcrs::json::{JsonNumber, JsonObject, JsonValue};
use commipcrs::security::{compute_signature, hash_secret};
use commipcrs::table::KeyedTable;
use commipcrs::{default_mode, default_timestamp, CommData, Error, Message};

fn text(s: &str) -> JsonValue {
    JsonValue::String(s.to_string())
}

fn response(rid: Option<&str>, is_stream: bool, error: Option<&str>) -> Message {
    let mut cd = CommData::new();
    cd.request_id = rid.map(|s| s.to_string());
    cd.is_stream = is_stream;
    cd.data = text("payload");
    Message::Response { data: cd, error: error.map(|s| s.to_string()) }
}

fn error_reply(rid: Option<&str>, message: &str) -> Message {
    Message::Error { request_id: rid.map(|s| s.to_string()), message: message.to_string() }
}

#[test]
fn frame_encoding() {
    assert_eq!(encode_frame(b"abc"), vec![0, 0, 0, 3, b'a', b'b', b'c']);
    assert_eq!(encode_frame(b""), vec![0, 0, 0, 0]);
    let payload = vec![7u8; 300];
    let f = encode_frame(&payload);
    assert_eq!(&f[..4], &[0, 0, 1, 44]);
    let header = [f[0], f[1], f[2], f[3]];
    assert_eq!(frame_payload_len(&header), 300);
    assert_eq!(&f[4..], &payload[..]);
    assert_eq!(frame_payload_len(&[1, 2, 3, 4]), 0x01020304);
    assert_eq!(frame_payload_len(&[255, 255, 255, 255]), u32::MAX);
}

#[test]
fn error_texts() {
    assert_eq!(not_connected().to_string(), "Connection error: Not connected");
    assert_eq!(Error::Io("x".to_string()).to_string(), "IO error: x");
    assert_eq!(Error::Serialization("s".to_string()).to_string(), "Serialization error: s");
    assert_eq!(Error::Deserialization("d".to_string()).to_string(), "Deserialization error: d");
    assert_eq!(Error::Json("j".to_string()).to_string(), "JSON error: j");
    assert_eq!(Error::Auth("a".to_string()).to_string(), "Auth error: a");
    assert_eq!(Error::Call("c".to_string()).to_string(), "Call error: c");
    assert_eq!(Error::Other("o".to_string()).to_string(), "Other error: o");
}

#[test]
fn blank_comm_data() {
    let cd = CommData::new();
    assert_eq!(cd.mode, "client");
    assert!(cd.sender_id.is_empty() && cd.server_id.is_empty() && cd.channel.is_empty() && cd.event.is_empty());
    assert!(matches!(cd.data, JsonValue::Null));
    assert_eq!(cd.metadata.len(), 0);
    assert!(cd.request_id.is_none() && cd.target_id.is_none() && cd.signature.is_none());
    assert!(cd.origin_server_id.is_none() && cd.sub_name.is_none() && cd.path.is_empty());
    assert!(!cd.is_stream && !cd.is_final);
    assert!(cd.timestamp > 1_600_000_000);
    assert_eq!(default_mode(), "client");
    assert!(default_timestamp() >= cd.timestamp);
    let d: CommData = Default::default();
    assert_eq!(d.mode, "client");
}

#[test]
fn client_ids() {
    assert_eq!(client_id_from_uuid("67e55044-10b1-426f-9247-bb680e5fe0c8"), "cli-67e55044");
    assert_eq!(resolve_client_id(Some("me".to_string())), "me");
    let id = resolve_client_id(None);
    assert_eq!(id.len(), 12);
    assert!(id.starts_with("cli-"));
    assert!(id[4..].chars().all(|c| c.is_ascii_hexdigit()));
    assert_ne!(resolve_client_id(None), resolve_client_id(None));
}

#[test]
fn identify() {
    match identify_message("c1".to_string()) {
        Message::Identify { client_id, mode } => {
            assert_eq!(client_id, "c1");
            assert_eq!(mode, "client");
        }
        _ => panic!("not an identify message"),
    }
}

#[test]
fn handshake_answers_challenge() {
    let step = on_identify_reply(Message::ConnChallenge { challenge: "abc".to_string() }, Some("s3cret"));
    let mut expected_msg = JsonObject::new();
    expected_msg.insert("challenge".to_string(), text("abc"));
    let expected = compute_signature(hash_secret("s3cret").as_bytes(), &expected_msg);
    match step {
        HandshakeStep::Prove(Message::ConnProof { proof }) => {
            assert_eq!(proof, expected);
            assert_eq!(proof, handshake_proof("s3cret", "abc".to_string()));
            assert_ne!(proof, handshake_proof("other", "abc".to_string()));
        }
        _ => panic!("expected a proof"),
    }
}

#[test]
fn handshake_without_secret_fails() {
    let step = on_identify_reply(Message::ConnChallenge { challenge: "abc".to_string() }, None);
    match step {
        HandshakeStep::Failed(e) => assert_eq!(
            e.to_string(),
            "Auth error: Server required connection secret but none provided"
        ),
        _ => panic!("expected a failure"),
    }
}

#[test]
fn handshake_verdicts() {
    let ok = Message::Identified { client_id: "c".to_string(), server_id: "srv".to_string() };
    assert!(matches!(on_identify_reply(ok, None), HandshakeStep::Identified(s) if s == "srv"));
    match on_identify_reply(error_reply(None, "denied"), Some("x")) {
        HandshakeStep::Failed(Error::Connection(m)) => assert_eq!(m, "denied"),
        _ => panic!("expected a refusal"),
    }
    match identification_result(Message::Pong) {
        Err(Error::Connection(m)) => assert_eq!(m, "Unexpected message during identification"),
        _ => panic!("expected an error"),
    }
    // A second challenge after the proof is not a verdict.
    match identification_result(Message::ConnChallenge { challenge: "again".to_string() }) {
        Err(Error::Connection(m)) => assert_eq!(m, "Unexpected message during identification"),
        _ => panic!("expected an error"),
    }
    let ok = Message::Identified { client_id: "c".to_string(), server_id: "srv2".to_string() };
    assert_eq!(identification_result(ok).unwrap(), "srv2");
}

#[test]
fn routing() {
    match route_message(response(Some("r1"), true, None)) {
        Route::Response { request_id, is_stream, message } => {
            assert_eq!(request_id, "r1");
            assert!(is_stream);
            assert!(matches!(message, Message::Response { .. }));
        }
        _ => panic!("expected a response route"),
    }
    assert!(matches!(route_message(response(None, false, None)), Route::Ignore));
    assert!(matches!(route_message(error_reply(Some("r2"), "bad")), Route::Failure { request_id, .. } if request_id == "r2"));
    assert!(matches!(route_message(error_reply(None, "bad")), Route::Ignore));
    let mut cd = CommData::new();
    cd.channel = "ch".to_string();
    assert!(matches!(route_message(Message::Call { data: cd }), Route::Call { channel, .. } if channel == "ch"));
    for kind in 0..3 {
        let mut cd = CommData::new();
        cd.channel = "news".to_string();
        let msg = match kind {
            0 => Message::Broadcast { data: cd },
            1 => Message::Send { data: cd },
            _ => Message::Receive { data: cd },
        };
        assert!(matches!(route_message(msg), Route::Receive { channel, .. } if channel == "news"));
    }
    assert!(matches!(route_message(Message::Ping), Route::Pong));
    assert!(matches!(route_message(Message::Pong), Route::Ignore));
}

#[test]
fn stream_bookkeeping() {
    let mut streams: KeyedTable<u32> = KeyedTable::new();
    streams.insert("r1".to_string(), 1);
    assert!(reply_goes_to_stream(&streams, "r1", true));
    assert!(!reply_goes_to_stream(&streams, "r1", false));
    assert!(!reply_goes_to_stream(&streams, "r2", true));
    assert!(!after_stream_chunk(&mut streams, "r1", true, false));
    assert!(streams.contains_key("r1"));
    assert!(after_stream_chunk(&mut streams, "r1", true, true));
    assert!(!streams.contains_key("r1"));
    streams.insert("r3".to_string(), 3);
    assert!(after_stream_chunk(&mut streams, "r3", false, false));
    assert_eq!(streams.len(), 0);
}

#[test]
fn keyed_table() {
    let mut t: KeyedTable<&str> = KeyedTable::new();
    assert_eq!(t.len(), 0);
    assert_eq!(t.insert("a".to_string(), "x"), None);
    assert_eq!(t.insert("b".to_string(), "y"), None);
    assert_eq!(t.insert("a".to_string(), "z"), Some("x"));
    assert_eq!(t.len(), 2);
    assert_eq!(t.get("a"), Some(&"z"));
    assert_eq!(t.remove("a"), Some("z"));
    assert_eq!(t.remove("a"), None);
    assert_eq!(t.get("a"), None);
    assert_eq!(t.get("b"), Some(&"y"));
    assert_eq!(t.len(), 1);
}

#[test]
fn registration() {
    match register_channel_message("rid".to_string(), "me".to_string(), "ch".to_string()) {
        Message::Register { request_id, client_id, channel, is_provider, event, is_stream, is_group, .. } => {
            assert_eq!(request_id.as_deref(), Some("rid"));
            assert_eq!(client_id, "me");
            assert_eq!(channel, "ch");
            assert!(!is_provider && event.is_none() && is_stream.is_none() && is_group.is_none());
        }
        _ => panic!("expected a register message"),
    }
    assert!(register_outcome(Some(response(Some("rid"), false, None))).is_ok());
    match register_outcome(Some(error_reply(Some("rid"), "no such channel"))) {
        Err(Error::Connection(m)) => assert_eq!(m, "no such channel"),
        _ => panic!("expected a refusal"),
    }
    match register_outcome(None) {
        Err(e) => assert_eq!(e.to_string(), "Connection error: Failed to register channel"),
        _ => panic!("expected a failure"),
    }
}

#[test]
fn calls() {
    let server = "srv".to_string();
    let cd = call_request("ch".to_string(), "ev".to_string(), text("d"), "rid".to_string(), "me".to_string(), Some(&server));
    assert_eq!(cd.channel, "ch");
    assert_eq!(cd.event, "ev");
    assert_eq!(cd.request_id.as_deref(), Some("rid"));
    assert_eq!(cd.sender_id, "me");
    assert_eq!(cd.server_id, "srv");
    assert_eq!(cd.mode, "client");
    let cd = call_request("ch".to_string(), "ev".to_string(), JsonValue::Null, "rid".to_string(), "me".to_string(), None);
    assert_eq!(cd.server_id, "");

    match call_outcome(Some(response(Some("rid"), false, None))) {
        Ok(data) => assert!(matches!(data.data, JsonValue::String(s) if s == "payload")),
        Err(_) => panic!("expected the response"),
    }
    match call_outcome(Some(response(Some("rid"), false, Some("boom")))) {
        Err(Error::Call(m)) => assert_eq!(m, "boom"),
        _ => panic!("expected a call error"),
    }
    match call_outcome(Some(error_reply(Some("rid"), "nope"))) {
        Err(Error::Call(m)) => assert_eq!(m, "nope"),
        _ => panic!("expected a call error"),
    }
    match call_outcome(None) {
        Err(Error::Connection(m)) => assert_eq!(m, "Call failed"),
        _ => panic!("expected a failure"),
    }
}

#[test]
fn subscriptions() {
    assert!(matches!(
        add_subscription_message("r".to_string(), "ch".to_string(), "s".to_string()),
        Message::AddSubscription { request_id: Some(r), channel, sub_name, return_schema: None } if r == "r" && channel == "ch" && sub_name == "s"
    ));
    assert!(matches!(
        subscribe_message("r".to_string(), "ch".to_string(), "s".to_string()),
        Message::Subscribe { request_id: Some(r), channel, sub_name } if r == "r" && channel == "ch" && sub_name == "s"
    ));
    assert!(add_subscription_outcome(Some(response(Some("r"), false, None))).is_ok());
    assert!(subscribe_outcome(Some(response(Some("r"), false, None))).is_ok());
    match add_subscription_outcome(Some(Message::Pong)) {
        Err(Error::Connection(m)) => assert_eq!(m, "Add subscription failed"),
        _ => panic!("expected a failure"),
    }
    match subscribe_outcome(None) {
        Err(Error::Connection(m)) => assert_eq!(m, "Subscribe failed"),
        _ => panic!("expected a failure"),
    }
    match subscribe_outcome(Some(error_reply(Some("r"), "owner only"))) {
        Err(Error::Call(m)) => assert_eq!(m, "owner only"),
        _ => panic!("expected a call error"),
    }
}

#[test]
fn channel_names() {
    assert_eq!(subscription_event_name("alerts"), "subscription.alerts.data");
    assert_eq!(group_event_name("heavy-tasks", "process"), "heavy-tasks.process");
}

#[test]
fn provider_registration() {
    match provider_register_message("ch".to_string(), "g.ev".to_string(), true, true) {
        Message::Register { request_id, client_id, channel, is_provider, event, is_stream, is_group, .. } => {
            assert!(request_id.is_none());
            assert_eq!(client_id, "");
            assert_eq!(channel, "ch");
            assert!(is_provider);
            assert_eq!(event.as_deref(), Some("g.ev"));
            assert_eq!(is_stream, Some(true));
            assert_eq!(is_group, Some(true));
        }
        _ => panic!("expected a register message"),
    }
}

#[test]
fn replies_to_calls() {
    match call_reply("ch".to_string(), Some("r".to_string()), "caller".to_string(), false, Ok(JsonValue::Number(JsonNumber::PosInt(5)))) {
        Message::Response { data, error } => {
            assert!(error.is_none());
            assert_eq!(data.channel, "ch");
            assert_eq!(data.event, "");
            assert_eq!(data.request_id.as_deref(), Some("r"));
            assert_eq!(data.target_id.as_deref(), Some("caller"));
            assert!(!data.is_stream && data.is_final);
            assert!(matches!(data.data, JsonValue::Number(JsonNumber::PosInt(5))));
        }
        _ => panic!("expected a response"),
    }
    match call_reply("ch".to_string(), None, "caller".to_string(), true, Ok(JsonValue::Null)) {
        Message::Response { data, .. } => assert!(data.is_stream && !data.is_final),
        _ => panic!("expected a response"),
    }
    match call_reply("ch".to_string(), Some("r".to_string()), "caller".to_string(), false, Err("Call error: bad".to_string())) {
        Message::Error { request_id, message } => {
            assert_eq!(request_id.as_deref(), Some("r"));
            assert_eq!(message, "Call error: bad");
        }
        _ => panic!("expected an error"),
    }
}

#[test]
fn listeners() {
    let mut l: KeyedTable<Vec<u8>> = KeyedTable::new();
    add_listener(&mut l, "subscription.a.data".to_string(), 1);
    add_listener(&mut l, "subscription.a.data".to_string(), 2);
    add_listener(&mut l, "other".to_string(), 3);
    assert_eq!(l.get("subscription.a.data"), Some(&vec![1, 2]));
    assert_eq!(l.get("other"), Some(&vec![3]));
    assert_eq!(l.len(), 2);
}

#[test]
fn publishing() {
    match commipcrs::client::publish_message("ch".to_string(), "alerts".to_string(), JsonValue::Bool(true)) {
        Message::Publish { channel, sub_name, data } => {
            assert_eq!(channel, "ch");
            assert_eq!(sub_name, "alerts");
            assert!(matches!(data, JsonValue::Bool(true)));
        }
        _ => panic!("expected a publish message"),
    }
}

#[test]
fn timestamps_from_clock_readings() {
    assert_eq!(commipcrs::comm_data::timestamp_from(Some(1_700_000_000)), 1_700_000_000);
    assert_eq!(commipcrs::comm_data::timestamp_from(None), 0);
}
