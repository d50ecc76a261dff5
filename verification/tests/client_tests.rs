use p2p::client::{
    ClientAction, ClientState, MessageTarget, PeerConnectPlan, ReconnectStep, reconnect_step,
    MAX_RECONNECT_ATTEMPTS,
};
use p2p::messages::{Message, MessageSource, MessageType, PeerInfo};
use p2p::peerlist::{decode_peer_list, host_port_content, parse_host_port_content, peer_list_content};

fn peer_list_message(content: &str) -> Message {
    Message::new(MessageType::PeerList, "SERVER".to_string())
        .with_content(content.to_string())
}

#[test]
fn smart_send_uses_server_without_a_link_and_the_link_once_made() {
    let mut c = ClientState::new("alice".to_string(), 9101);
    let p = c.create_smart_chat_message(Some("bob".to_string()), "hi".to_string(), 1);
    assert!(matches!(p.target, MessageTarget::Server));
    assert_eq!(p.message.source, MessageSource::Server);

    let tok = c.register_peer_link("bob".to_string());
    let p = c.create_smart_chat_message(Some("bob".to_string()), "hi".to_string(), 2);
    match p.target {
        MessageTarget::Peer(t) => assert_eq!(t, tok),
        MessageTarget::Server => panic!("a standing link must be used"),
    }
    assert_eq!(p.message.source, MessageSource::Peer);
    assert_eq!(p.message.sender_listen_port, 9101);

    // tearing the link down sends the next message via the server again
    c.remove_peer(tok);
    let p = c.create_smart_chat_message(Some("bob".to_string()), "hi".to_string(), 3);
    assert!(matches!(p.target, MessageTarget::Server));
}

#[test]
fn untargeted_send_always_goes_via_the_server() {
    let mut c = ClientState::new("alice".to_string(), 9101);
    let _ = c.register_peer_link("bob".to_string());
    let p = c.create_smart_chat_message(None, "to everyone".to_string(), 1);
    assert!(matches!(p.target, MessageTarget::Server));
}

#[test]
fn static_chat_builder_routes_via_server() {
    let p = ClientState::create_chat_message_static(
        "alice".to_string(),
        Some("bob".to_string()),
        "x".to_string(),
        9,
    );
    assert!(matches!(p.target, MessageTarget::Server));
    assert_eq!(p.message.msg_type, MessageType::Chat);
    assert_eq!(p.message.timestamp, 9);
}

#[test]
fn peer_list_reply_merges_and_skips_the_own_id() {
    let mut c = ClientState::new("alice".to_string(), 9101);
    let m = peer_list_message("[[\"alice\",\"127.0.0.1\",9101],[\"bob\",\"127.0.0.1\",9102]]");
    let actions = c.handle_message(&m, 5);
    assert!(actions.is_empty());
    let peers = c.known_peers_snapshot();
    assert_eq!(peers.len(), 1);
    assert_eq!(peers[0].user_id, "bob");
    assert_eq!(peers[0].address, "127.0.0.1");
    assert_eq!(peers[0].port, 9102);
}

#[test]
fn a_fresh_peer_list_replaces_known_endpoints() {
    let mut c = ClientState::new("alice".to_string(), 9101);
    let m = peer_list_message("[[\"bob\",\"127.0.0.1\",9102]]");
    let _ = c.handle_message(&m, 5);
    let m = peer_list_message("[[\"bob\",\"10.0.0.2\",9200]]");
    let _ = c.handle_message(&m, 6);
    let peers = c.known_peers_snapshot();
    assert_eq!(peers.len(), 1);
    assert_eq!(peers[0].address, "10.0.0.2");
    assert_eq!(peers[0].port, 9200);
}

#[test]
fn unparsable_peer_list_changes_nothing() {
    let mut c = ClientState::new("alice".to_string(), 9101);
    let m = peer_list_message("not a list");
    let actions = c.handle_message(&m, 5);
    assert!(actions.is_empty());
    assert!(c.known_peers_snapshot().is_empty());
}

#[test]
fn user_left_forgets_the_peer_and_tears_down_the_link() {
    let mut c = ClientState::new("alice".to_string(), 9101);
    let m = peer_list_message("[[\"bob\",\"127.0.0.1\",9102]]");
    let _ = c.handle_message(&m, 5);
    let tok = c.register_peer_link("bob".to_string());

    let left = Message::new(MessageType::UserLeft, "SERVER".to_string())
        .with_content("bob".to_string());
    let actions = c.handle_message(&left, 6);
    assert_eq!(actions.len(), 1);
    match &actions[0] {
        ClientAction::DropLink(t) => assert_eq!(*t, tok),
        _ => panic!("the standing link must be dropped"),
    }
    assert!(c.known_peers_snapshot().is_empty());
    assert_eq!(c.find_peer_token(&"bob".to_string()), None);
}

#[test]
fn connect_response_records_the_endpoint_and_asks_to_dial() {
    let mut c = ClientState::new("alice".to_string(), 9101);
    let m = Message::new(MessageType::ConnectResponse, "bob".to_string())
        .with_target("alice".to_string())
        .with_content("127.0.0.1,9102".to_string());
    let actions = c.handle_message(&m, 5);
    assert_eq!(actions.len(), 1);
    match &actions[0] {
        ClientAction::Dial { peer_id, address, port } => {
            assert_eq!(peer_id, "bob");
            assert_eq!(address, "127.0.0.1");
            assert_eq!(*port, 9102);
        },
        _ => panic!("a connect response must trigger a dial"),
    }
    let peers = c.known_peers_snapshot();
    assert_eq!(peers.len(), 1);
    assert_eq!(peers[0].user_id, "bob");
}

#[test]
fn plan_peer_connect_covers_all_cases() {
    let mut c = ClientState::new("alice".to_string(), 9101);
    assert!(matches!(
        c.plan_peer_connect(&"alice".to_string()),
        PeerConnectPlan::SelfTarget
    ));
    assert!(matches!(
        c.plan_peer_connect(&"bob".to_string()),
        PeerConnectPlan::RequestAddress
    ));
    let m = peer_list_message("[[\"bob\",\"127.0.0.1\",9102]]");
    let _ = c.handle_message(&m, 5);
    match c.plan_peer_connect(&"bob".to_string()) {
        PeerConnectPlan::Dial { address, port } => {
            assert_eq!(address, "127.0.0.1");
            assert_eq!(port, 9102);
        },
        _ => panic!("a known endpoint must be dialled"),
    }
    let tok = c.register_peer_link("bob".to_string());
    match c.plan_peer_connect(&"bob".to_string()) {
        PeerConnectPlan::AlreadyLinked(t) => assert_eq!(t, tok),
        _ => panic!("a standing link is a no-op success"),
    }
}

#[test]
fn inbound_identity_is_established_lazily() {
    let mut c = ClientState::new("alice".to_string(), 9101);
    let tok = c.accept_peer_token();
    assert_eq!(c.find_peer_token(&"bob".to_string()), None);
    c.note_peer_traffic(tok, &"bob".to_string());
    assert_eq!(c.find_peer_token(&"bob".to_string()), Some(tok));
    // a second sender on the same socket does not steal the binding
    c.note_peer_traffic(tok, &"mallory".to_string());
    assert_eq!(c.find_peer_token(&"mallory".to_string()), None);
}

#[test]
fn heartbeat_is_sent_only_while_connected_and_due() {
    let mut c = ClientState::new("alice".to_string(), 9101);
    assert!(c.check_and_send_heartbeat(40000).is_none());
    c.set_connected(true);
    assert!(c.check_and_send_heartbeat(1000).is_none());
    let hb = c.check_and_send_heartbeat(40000).expect("due and connected");
    assert_eq!(hb.msg_type, MessageType::Heartbeat);
    assert_eq!(hb.sender_id, "alice");
    assert_eq!(hb.sender_listen_port, 9101);
    // not due again immediately
    assert!(c.check_and_send_heartbeat(40001).is_none());
}

#[test]
fn reconnect_policy_is_bounded() {
    for attempts in 0..MAX_RECONNECT_ATTEMPTS {
        assert!(matches!(reconnect_step(attempts), ReconnectStep::TryNow));
    }
    assert!(matches!(
        reconnect_step(MAX_RECONNECT_ATTEMPTS),
        ReconnectStep::Degraded
    ));
}

#[test]
fn join_and_request_builders_carry_the_advertised_endpoint() {
    let c = ClientState::new("alice".to_string(), 9101);
    let j = c.join_message(7);
    assert_eq!(j.msg_type, MessageType::Join);
    assert_eq!(j.sender_peer_address, "127.0.0.1");
    assert_eq!(j.sender_listen_port, 9101);
    assert_eq!(j.timestamp, 7);
    let r = c.peer_list_request_message(8);
    assert_eq!(r.msg_type, MessageType::PeerListRequest);
    let q = c.connect_request_message("bob".to_string(), 9);
    assert_eq!(q.msg_type, MessageType::ConnectRequest);
    assert_eq!(q.target_id, Some("bob".to_string()));
}

#[test]
fn peer_list_content_round_trips() {
    let ps = vec![
        PeerInfo::new("alice".to_string(), "127.0.0.1".to_string(), 9101),
        PeerInfo::new("b\"ob\\".to_string(), "h\u{00f8}st".to_string(), 65535),
    ];
    let content = peer_list_content(&ps);
    let back = decode_peer_list(&content).expect("our own export parses");
    assert_eq!(back, ps);
}

#[test]
fn empty_peer_list_round_trips() {
    let ps: Vec<PeerInfo> = Vec::new();
    let content = peer_list_content(&ps);
    assert_eq!(content, "[]");
    let back = decode_peer_list(&content).expect("the empty export parses");
    assert!(back.is_empty());
}

#[test]
fn host_port_content_round_trips() {
    let content = host_port_content("127.0.0.1", 9102);
    assert_eq!(content, "127.0.0.1,9102");
    let (addr, port) = parse_host_port_content(&content).unwrap();
    assert_eq!(addr, "127.0.0.1");
    assert_eq!(port, 9102);
    assert!(parse_host_port_content("no comma here").is_none());
    assert!(parse_host_port_content("host,99999").is_none());
}
