use p2p::messages::{default_message_source, Message, MessageSource, MessageType};

#[test]
fn new_message_starts_empty_and_server_sourced() {
    let m = Message::new(MessageType::Join, "alice".to_string());
    assert_eq!(m.msg_type, MessageType::Join);
    assert_eq!(m.sender_id, "alice");
    assert!(m.target_id.is_none());
    assert!(m.content.is_none());
    assert_eq!(m.sender_peer_address, "");
    assert_eq!(m.sender_listen_port, 0);
    assert_eq!(m.timestamp, 0);
    assert_eq!(m.source, MessageSource::Server);
    assert_eq!(default_message_source(), MessageSource::Server);
}

#[test]
fn builders_set_exactly_their_field() {
    let m = Message::new(MessageType::Chat, "alice".to_string())
        .with_target("bob".to_string())
        .with_content("hi".to_string())
        .with_peer_info("127.0.0.1".to_string(), 9101)
        .with_source(MessageSource::Peer)
        .with_timestamp(42);
    assert_eq!(m.target_id, Some("bob".to_string()));
    assert_eq!(m.content, Some("hi".to_string()));
    assert_eq!(m.sender_peer_address, "127.0.0.1");
    assert_eq!(m.sender_listen_port, 9101);
    assert_eq!(m.source, MessageSource::Peer);
    assert_eq!(m.timestamp, 42);
}

#[test]
fn duplicate_is_equal_field_for_field() {
    let m = Message::new(MessageType::Chat, "alice".to_string())
        .with_target("bob".to_string())
        .with_content("hi".to_string());
    let d = m.duplicate();
    assert_eq!(d, m);
    let other = m.duplicate().with_content("bye".to_string());
    assert_ne!(other, m);
}
