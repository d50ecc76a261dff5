use p2p::codec::{deserialize_message, serialize_message};
use p2p::messages::{Message, MessageSource, MessageType, P2PError};

fn round_trip(m: Message) -> Message {
    let bytes = serialize_message(&m).expect("serialization always succeeds");
    assert_eq!(*bytes.last().unwrap(), b'\n');
    let body = &bytes[..bytes.len() - 1];
    deserialize_message(body).expect("a frame we produced parses back")
}

#[test]
fn round_trip_basic_chat() {
    let m = Message {
        msg_type: MessageType::Chat,
        sender_id: "alice".to_string(),
        target_id: Some("bob".to_string()),
        content: Some("hello there".to_string()),
        sender_peer_address: "127.0.0.1".to_string(),
        sender_listen_port: 9101,
        timestamp: 1700000000123,
        source: MessageSource::Peer,
    };
    let back = round_trip(m.duplicate());
    assert_eq!(back, m);
}

#[test]
fn round_trip_every_message_type() {
    let types = [
        MessageType::Join,
        MessageType::Chat,
        MessageType::Leave,
        MessageType::PeerList,
        MessageType::PeerListRequest,
        MessageType::ConnectRequest,
        MessageType::ConnectResponse,
        MessageType::Heartbeat,
        MessageType::UserJoined,
        MessageType::UserLeft,
    ];
    for t in types {
        let m = Message::new(t, "u".to_string())
            .with_content("c".to_string())
            .with_timestamp(7);
        let back = round_trip(m.duplicate());
        assert_eq!(back, m);
    }
}

#[test]
fn round_trip_awkward_strings() {
    let m = Message {
        msg_type: MessageType::Chat,
        sender_id: "a\"b\\c".to_string(),
        target_id: Some("line\nbreak\ttab".to_string()),
        content: Some("unicode: \u{00e9}\u{4e16}\u{1f600} and a comma, too".to_string()),
        sender_peer_address: String::new(),
        sender_listen_port: 0,
        timestamp: u64::MAX,
        source: MessageSource::Server,
    };
    let back = round_trip(m.duplicate());
    assert_eq!(back, m);
}

#[test]
fn round_trip_absent_optionals() {
    let m = Message::new(MessageType::Heartbeat, "alice".to_string());
    let back = round_trip(m.duplicate());
    assert_eq!(back, m);
    assert!(back.target_id.is_none());
    assert!(back.content.is_none());
}

#[test]
fn serialized_form_is_the_documented_json_line() {
    let m = Message::new(MessageType::Join, "alice".to_string())
        .with_peer_info("127.0.0.1".to_string(), 9101)
        .with_timestamp(5);
    let bytes = serialize_message(&m).unwrap();
    let expected = "{\"msg_type\":\"Join\",\"sender_id\":\"alice\",\"target_id\":null,\"content\":null,\"sender_peer_address\":\"127.0.0.1\",\"sender_listen_port\":9101,\"timestamp\":5,\"source\":\"Server\"}\n";
    assert_eq!(bytes, expected.as_bytes().to_vec());
}

#[test]
fn escapes_keep_the_delimiter_out_of_the_frame() {
    let m = Message::new(MessageType::Chat, "a".to_string())
        .with_content("one\ntwo\nthree".to_string());
    let bytes = serialize_message(&m).unwrap();
    let newline_count = bytes.iter().filter(|&&b| b == b'\n').count();
    assert_eq!(newline_count, 1);
    assert_eq!(*bytes.last().unwrap(), b'\n');
}

#[test]
fn malformed_frames_are_rejected() {
    let cases: Vec<&[u8]> = vec![
        b"",
        b"not json at all",
        b"{\"msg_type\":\"Nonsense\",\"sender_id\":\"a\"}",
        b"{\"msg_type\":\"Join\"",
        b"[1,2,3]",
        b"{\"msg_type\":\"Join\",\"sender_id\":\"alice\",\"target_id\":null,\"content\":null,\"sender_peer_address\":\"x\",\"sender_listen_port\":99999,\"timestamp\":5,\"source\":\"Server\"}",
    ];
    for c in cases {
        let r = deserialize_message(c);
        assert!(matches!(r, Err(P2PError::SerializationError(_))));
    }
}

#[test]
fn truncated_frame_is_rejected() {
    let m = Message::new(MessageType::Chat, "alice".to_string())
        .with_content("hello".to_string());
    let bytes = serialize_message(&m).unwrap();
    let body = &bytes[..bytes.len() - 1];
    for cut in 0..body.len() {
        assert!(deserialize_message(&body[..cut]).is_err());
    }
}

#[test]
fn trailing_garbage_is_rejected() {
    let m = Message::new(MessageType::Chat, "alice".to_string());
    let bytes = serialize_message(&m).unwrap();
    let mut body = bytes[..bytes.len() - 1].to_vec();
    body.push(b' ');
    assert!(deserialize_message(&body).is_err());
}
