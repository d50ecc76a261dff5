use p2p::messages::{Message, MessageSource, MessageType};
use p2p::server::{Outgoing, ServerState, PEER_TIMEOUT_MS};

fn join_msg(user: &str, port: u16, now: u64) -> Message {
    Message::new(MessageType::Join, user.to_string())
        .with_peer_info("127.0.0.1".to_string(), port)
        .with_timestamp(now)
}

fn setup_two_users() -> (ServerState, u64, u64) {
    let mut s = ServerState::new();
    let tok_a = s.accept_connection();
    let out = s.handle_message(&join_msg("alice", 9101, 10), tok_a, 10);
    assert_eq!(out.len(), 1); // only the peer list reply: nobody else yet
    let tok_b = s.accept_connection();
    let _ = s.handle_message(&join_msg("bob", 9102, 20), tok_b, 20);
    (s, tok_a, tok_b)
}

#[test]
fn join_makes_exactly_one_entry_and_notifies_others() {
    let mut s = ServerState::new();
    let tok_a = s.accept_connection();
    let _ = s.handle_message(&join_msg("alice", 9101, 10), tok_a, 10);
    assert_eq!(s.user_count(), 1);
    // a second join from the same user replaces, never duplicates
    let _ = s.handle_message(&join_msg("alice", 9101, 15), tok_a, 15);
    assert_eq!(s.user_count(), 1);

    let tok_b = s.accept_connection();
    let out = s.handle_message(&join_msg("bob", 9102, 20), tok_b, 20);
    assert_eq!(s.user_count(), 2);
    // exactly one UserJoined naming bob, to alice's connection
    let joined: Vec<&Outgoing> = out
        .iter()
        .filter(|o| o.message.msg_type == MessageType::UserJoined)
        .collect();
    assert_eq!(joined.len(), 1);
    assert_eq!(joined[0].token, tok_a);
    assert_eq!(joined[0].message.sender_id, "bob");
    assert_eq!(joined[0].message.content, Some("bob".to_string()));
    // and the peer list reply goes to the joiner
    let lists: Vec<&Outgoing> = out
        .iter()
        .filter(|o| o.message.msg_type == MessageType::PeerList)
        .collect();
    assert_eq!(lists.len(), 1);
    assert_eq!(lists[0].token, tok_b);
}

#[test]
fn leave_removes_the_entry_and_notifies_the_rest() {
    let (mut s, tok_a, tok_b) = setup_two_users();
    let leave = Message::new(MessageType::Leave, "alice".to_string());
    let out = s.handle_message(&leave, tok_a, 30);
    assert_eq!(s.user_count(), 1);
    assert_eq!(out.len(), 1);
    assert_eq!(out[0].token, tok_b);
    assert_eq!(out[0].message.msg_type, MessageType::UserLeft);
    assert_eq!(out[0].message.content, Some("alice".to_string()));
}

#[test]
fn detected_disconnect_removes_silently() {
    let (mut s, tok_a, _tok_b) = setup_two_users();
    s.handle_disconnect(tok_a);
    assert_eq!(s.user_count(), 1);
}

#[test]
fn targeted_chat_reaches_only_the_target() {
    let (mut s, tok_a, _tok_b) = setup_two_users();
    let chat = Message::new(MessageType::Chat, "bob".to_string())
        .with_target("alice".to_string())
        .with_content("hey".to_string());
    let out = s.handle_message(&chat, _tok_b, 40);
    assert_eq!(out.len(), 1);
    assert_eq!(out[0].token, tok_a);
    assert_eq!(out[0].message.content, Some("hey".to_string()));
}

#[test]
fn chat_to_unknown_target_is_dropped() {
    let (mut s, _tok_a, tok_b) = setup_two_users();
    let chat = Message::new(MessageType::Chat, "bob".to_string())
        .with_target("nobody".to_string())
        .with_content("hi".to_string());
    let out = s.handle_message(&chat, tok_b, 40);
    assert!(out.is_empty());
}

#[test]
fn untargeted_chat_reaches_everyone_including_the_sender() {
    let (mut s, tok_a, tok_b) = setup_two_users();
    let chat = Message::new(MessageType::Chat, "alice".to_string())
        .with_content("hi all".to_string());
    let out = s.handle_message(&chat, tok_a, 40);
    assert_eq!(out.len(), 2);
    let mut tokens: Vec<u64> = out.iter().map(|o| o.token).collect();
    tokens.sort();
    let mut expected = vec![tok_a, tok_b];
    expected.sort();
    assert_eq!(tokens, expected);
}

#[test]
fn peer_list_request_gets_the_full_export() {
    let (mut s, tok_a, _tok_b) = setup_two_users();
    let req = Message::new(MessageType::PeerListRequest, "alice".to_string());
    let out = s.handle_message(&req, tok_a, 40);
    assert_eq!(out.len(), 1);
    assert_eq!(out[0].token, tok_a);
    assert_eq!(out[0].message.msg_type, MessageType::PeerList);
    let content = out[0].message.content.as_ref().unwrap();
    assert_eq!(
        content,
        "[[\"alice\",\"127.0.0.1\",9101],[\"bob\",\"127.0.0.1\",9102]]"
    );
}

#[test]
fn connect_request_replies_with_the_target_endpoint() {
    let (mut s, tok_a, _tok_b) = setup_two_users();
    let req = Message::new(MessageType::ConnectRequest, "alice".to_string())
        .with_target("bob".to_string());
    let out = s.handle_message(&req, tok_a, 40);
    assert_eq!(out.len(), 1);
    assert_eq!(out[0].token, tok_a);
    let reply = &out[0].message;
    assert_eq!(reply.msg_type, MessageType::ConnectResponse);
    assert_eq!(reply.sender_id, "bob");
    assert_eq!(reply.target_id, Some("alice".to_string()));
    assert_eq!(reply.content, Some("127.0.0.1,9102".to_string()));
    assert_eq!(reply.sender_peer_address, "127.0.0.1");
    assert_eq!(reply.sender_listen_port, 9102);
}

#[test]
fn connect_request_for_unknown_target_gets_no_reply() {
    let (mut s, tok_a, _tok_b) = setup_two_users();
    let req = Message::new(MessageType::ConnectRequest, "alice".to_string())
        .with_target("nobody".to_string());
    let out = s.handle_message(&req, tok_a, 40);
    assert!(out.is_empty());
}

#[test]
fn stale_entries_are_evicted_and_absent_from_later_lists() {
    let (mut s, tok_a, tok_b) = setup_two_users();
    // bob heartbeats late enough to stay alive; alice goes quiet
    let hb = Message::new(MessageType::Heartbeat, "bob".to_string());
    let now = PEER_TIMEOUT_MS + 50;
    let _ = s.handle_message(&hb, tok_b, now);
    let removed = s.check_peer_timeouts(now + 1);
    assert_eq!(removed, vec![tok_a]);
    assert_eq!(s.user_count(), 1);
    // a later peer list no longer names alice
    let req = Message::new(MessageType::PeerListRequest, "bob".to_string());
    let out = s.handle_message(&req, tok_b, now + 2);
    let content = out[0].message.content.as_ref().unwrap();
    assert!(!content.contains("alice"));
    assert!(content.contains("bob"));
}

#[test]
fn heartbeat_refreshes_the_stamp() {
    let (mut s, tok_a, _tok_b) = setup_two_users();
    let hb = Message::new(MessageType::Heartbeat, "alice".to_string());
    let now = PEER_TIMEOUT_MS;
    let _ = s.handle_message(&hb, tok_a, now);
    let hb2 = Message::new(MessageType::Heartbeat, "bob".to_string());
    let _ = s.handle_message(&hb2, _tok_b, now);
    let removed = s.check_peer_timeouts(now + 10);
    assert!(removed.is_empty());
    assert_eq!(s.user_count(), 2);
}

#[test]
fn server_heartbeat_broadcasts_on_its_interval() {
    let (mut s, tok_a, tok_b) = setup_two_users();
    let out = s.check_heartbeat(1000);
    assert!(out.is_empty());
    let out = s.check_heartbeat(31000);
    assert_eq!(out.len(), 2);
    let mut tokens: Vec<u64> = out.iter().map(|o| o.token).collect();
    tokens.sort();
    let mut expected = vec![tok_a, tok_b];
    expected.sort();
    assert_eq!(tokens, expected);
    assert_eq!(out[0].message.msg_type, MessageType::Heartbeat);
    assert_eq!(out[0].message.source, MessageSource::Server);
    // not due again right away
    let out = s.check_heartbeat(31001);
    assert!(out.is_empty());
}

#[test]
fn unrecognized_types_are_ignored() {
    let (mut s, tok_a, _tok_b) = setup_two_users();
    let odd = Message::new(MessageType::UserJoined, "alice".to_string());
    let out = s.handle_message(&odd, tok_a, 40);
    assert!(out.is_empty());
    assert_eq!(s.user_count(), 2);
}
