//! End-to-end protocol scenarios with the real codec on the wire: every
//! message crosses as a serialized frame through a frame buffer, exactly as
//! it would over a socket.

use p2p::client::{ClientAction, ClientState, MessageTarget};
use p2p::codec::{deserialize_message, serialize_message};
use p2p::framing::FrameBuffer;
use p2p::messages::{Message, MessageSource, MessageType};
use p2p::server::{Outgoing, ServerState};

/// Serializes a message onto a wire buffer and decodes whatever frames are
/// complete, as a receiving loop would.
fn over_wire(m: &Message, buf: &mut FrameBuffer) -> Vec<Message> {
    let bytes = serialize_message(m).unwrap();
    let frames = buf.feed(&bytes);
    frames
        .iter()
        .map(|f| deserialize_message(f).expect("frames on the wire are well formed"))
        .collect()
}

struct Wires {
    to_alice: FrameBuffer,
    to_bob: FrameBuffer,
}

fn deliver(
    out: &[Outgoing],
    tok_a: u64,
    tok_b: u64,
    wires: &mut Wires,
    alice: &mut ClientState,
    bob: &mut ClientState,
) -> Vec<(String, Message)> {
    let mut seen = Vec::new();
    for o in out {
        let (who, buf, client) = if o.token == tok_a {
            ("alice", &mut wires.to_alice, &mut *alice)
        } else if o.token == tok_b {
            ("bob", &mut wires.to_bob, &mut *bob)
        } else {
            panic!("a reply to an unknown connection");
        };
        for m in over_wire(&o.message, buf) {
            let m = m.with_source(MessageSource::Server);
            let _ = client.handle_message(&m, 0);
            seen.push((who.to_string(), m));
        }
    }
    seen
}

#[test]
fn relay_scenario_join_list_broadcast_private() {
    // server on 127.0.0.1:9001; the two clients advertise their listeners
    let mut server = ServerState::new();
    let mut alice = ClientState::new("alice".to_string(), 9101);
    let mut bob = ClientState::new("bob".to_string(), 9102);
    let mut wires = Wires { to_alice: FrameBuffer::new(), to_bob: FrameBuffer::new() };
    let mut server_in = FrameBuffer::new();

    let tok_a = server.accept_connection();
    alice.set_connected(true);
    let join_a = alice.join_message(1);
    for m in over_wire(&join_a, &mut server_in) {
        let out = server.handle_message(&m, tok_a, 1);
        deliver(&out, tok_a, 0, &mut wires, &mut alice, &mut bob);
    }

    let tok_b = server.accept_connection();
    bob.set_connected(true);
    let join_b = bob.join_message(2);
    for m in over_wire(&join_b, &mut server_in) {
        let out = server.handle_message(&m, tok_b, 2);
        deliver(&out, tok_a, tok_b, &mut wires, &mut alice, &mut bob);
    }

    // alice requests the peer list and learns of bob (her own entry skipped)
    let req = alice.peer_list_request_message(3);
    for m in over_wire(&req, &mut server_in) {
        let out = server.handle_message(&m, tok_a, 3);
        deliver(&out, tok_a, tok_b, &mut wires, &mut alice, &mut bob);
    }
    let known = alice.known_peers_snapshot();
    assert_eq!(known.len(), 1);
    assert_eq!(known[0].user_id, "bob");
    assert_eq!(known[0].address, "127.0.0.1");
    assert_eq!(known[0].port, 9102);

    // alice broadcasts: both alice and bob observe it
    let p = alice.create_smart_chat_message(None, "hi".to_string(), 4);
    assert!(matches!(p.target, MessageTarget::Server));
    let mut observers = Vec::new();
    for m in over_wire(&p.message, &mut server_in) {
        let out = server.handle_message(&m, tok_a, 4);
        let seen = deliver(&out, tok_a, tok_b, &mut wires, &mut alice, &mut bob);
        for (who, msg) in seen {
            assert_eq!(msg.content, Some("hi".to_string()));
            observers.push(who);
        }
    }
    observers.sort();
    assert_eq!(observers, vec!["alice".to_string(), "bob".to_string()]);

    // bob sends a private chat to alice: only alice observes it
    let p = bob.create_smart_chat_message(Some("alice".to_string()), "hey".to_string(), 5);
    assert!(matches!(p.target, MessageTarget::Server));
    let mut observers = Vec::new();
    for m in over_wire(&p.message, &mut server_in) {
        let out = server.handle_message(&m, tok_b, 5);
        let seen = deliver(&out, tok_a, tok_b, &mut wires, &mut alice, &mut bob);
        for (who, msg) in seen {
            assert_eq!(msg.content, Some("hey".to_string()));
            observers.push(who);
        }
    }
    assert_eq!(observers, vec!["alice".to_string()]);
}

#[test]
fn connect_negotiation_upgrades_to_a_direct_link() {
    let mut server = ServerState::new();
    let mut alice = ClientState::new("alice".to_string(), 9101);
    let mut bob = ClientState::new("bob".to_string(), 9102);
    let mut wires = Wires { to_alice: FrameBuffer::new(), to_bob: FrameBuffer::new() };
    let mut server_in = FrameBuffer::new();

    let tok_a = server.accept_connection();
    for m in over_wire(&alice.join_message(1), &mut server_in) {
        let _ = server.handle_message(&m, tok_a, 1);
    }
    let tok_b = server.accept_connection();
    for m in over_wire(&bob.join_message(2), &mut server_in) {
        let _ = server.handle_message(&m, tok_b, 2);
    }

    // alice asks the relay how to reach bob
    let req = alice.connect_request_message("bob".to_string(), 3);
    let mut responses = Vec::new();
    for m in over_wire(&req, &mut server_in) {
        let out = server.handle_message(&m, tok_a, 3);
        for o in &out {
            assert_eq!(o.token, tok_a);
            for r in over_wire(&o.message, &mut wires.to_alice) {
                responses.push(r);
            }
        }
    }
    // exactly one ConnectResponse, naming bob and his endpoint
    assert_eq!(responses.len(), 1);
    let resp = &responses[0];
    assert_eq!(resp.msg_type, MessageType::ConnectResponse);
    assert_eq!(resp.sender_id, "bob");
    assert_eq!(resp.content, Some("127.0.0.1,9102".to_string()));

    // alice handles it: she is asked to dial 127.0.0.1:9102
    let actions = alice.handle_message(resp, 3);
    assert_eq!(actions.len(), 1);
    let (peer, addr, port) = match &actions[0] {
        ClientAction::Dial { peer_id, address, port } => (peer_id.clone(), address.clone(), *port),
        _ => panic!("a connect response must trigger a dial"),
    };
    assert_eq!(peer, "bob");
    assert_eq!(addr, "127.0.0.1");
    assert_eq!(port, 9102);

    // the dial succeeds: the link is registered and smart send bypasses the
    // server from then on
    let link = alice.register_peer_link(peer);
    let p = alice.create_smart_chat_message(Some("bob".to_string()), "direct".to_string(), 4);
    match p.target {
        MessageTarget::Peer(t) => assert_eq!(t, link),
        MessageTarget::Server => panic!("the direct link must bypass the server"),
    }
    assert_eq!(p.message.source, MessageSource::Peer);

    // bob's side: the inbound link is identified by the first frame on it
    let inbound = bob.accept_peer_token();
    let mut bob_in = FrameBuffer::new();
    for m in over_wire(&p.message, &mut bob_in) {
        let m = m.with_source(MessageSource::Peer);
        bob.note_peer_traffic(inbound, &m.sender_id);
        let actions = bob.handle_message(&m, 4);
        assert_eq!(actions.len(), 1);
        assert!(matches!(&actions[0], ClientAction::Deliver(d) if d.content == Some("direct".to_string())));
    }
    assert_eq!(bob.find_peer_token(&"alice".to_string()), Some(inbound));
}
