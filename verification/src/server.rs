//! The relay server's protocol core: an authoritative directory keyed by
//! user, handlers for every message type, the periodic heartbeat broadcast
//! and the stale-peer sweep. Each handler is a pure transition on the
//! directory plus a list of (token, message) pairs to send; socket work
//! stays with the caller.

use vstd::prelude::*;
use vstd::utf8::*;

verus! {

use crate::messages::{Message, MessageType, MessageSource, MessageView, PeerInfo};
use crate::directory::{
    Directory, DirEntry, DirEntryView, dir_wf, remove_user_spec, remove_token_spec, refresh_spec,
    evict_spec, evicted_tokens_spec, stale, find_user, has_user, count_user, export,
    lemma_remove_user_spec_props, lemma_remove_token_spec_props, lemma_evict_spec_props,
    lemma_find_user_props, lemma_count_after_join,
};
use crate::peerlist::{encode_peer_list, host_port_bytes, peer_list_content, host_port_content};

/// How often the server broadcasts its heartbeat, in milliseconds.
pub const HEARTBEAT_INTERVAL_MS: u64 = 30000;

/// How long a directory entry may go without a heartbeat before the sweep
/// evicts it, in milliseconds.
pub const PEER_TIMEOUT_MS: u64 = 60000;

/// One message queued for one connection.
pub struct Outgoing {
    pub token: u64,
    pub message: Message,
}

pub open spec fn outgoing_view(r: Seq<Outgoing>) -> Seq<(u64, MessageView)> {
    r.map(|i: int, o: Outgoing| (o.token, o.message@))
}

pub open spec fn server_id_chars() -> Seq<char> {
    "SERVER"@
}

/// The notice sent to the other users when someone joins.
pub open spec fn user_joined_view(m: MessageView, now: u64) -> MessageView {
    MessageView {
        msg_type: MessageType::UserJoined,
        sender_id: m.sender_id,
        target_id: None,
        content: Some(m.sender_id),
        sender_peer_address: m.sender_peer_address,
        sender_listen_port: m.sender_listen_port,
        timestamp: now,
        source: MessageSource::Server,
    }
}

/// The notice sent to the remaining users when someone leaves.
pub open spec fn user_left_view(u: Seq<char>, now: u64) -> MessageView {
    MessageView {
        msg_type: MessageType::UserLeft,
        sender_id: u,
        target_id: None,
        content: Some(u),
        sender_peer_address: Seq::empty(),
        sender_listen_port: 0,
        timestamp: now,
        source: MessageSource::Server,
    }
}

/// The reply carrying the full directory export.
pub open spec fn peer_list_view(d: Seq<DirEntryView>, now: u64) -> MessageView {
    MessageView {
        msg_type: MessageType::PeerList,
        sender_id: server_id_chars(),
        target_id: None,
        content: Some(decode_utf8(encode_peer_list(export(d)))),
        sender_peer_address: Seq::empty(),
        sender_listen_port: 0,
        timestamp: now,
        source: MessageSource::Server,
    }
}

/// The reply to a connect request: the target's name and endpoint, the
/// content carrying `host,port`.
pub open spec fn connect_response_view(e: DirEntryView, requester: Seq<char>, now: u64) -> MessageView {
    MessageView {
        msg_type: MessageType::ConnectResponse,
        sender_id: e.user_id,
        target_id: Some(requester),
        content: Some(decode_utf8(host_port_bytes(e.address, e.port))),
        sender_peer_address: e.address,
        sender_listen_port: e.port,
        timestamp: now,
        source: MessageSource::Server,
    }
}

pub open spec fn server_heartbeat_view(now: u64) -> MessageView {
    MessageView {
        msg_type: MessageType::Heartbeat,
        sender_id: server_id_chars(),
        target_id: None,
        content: None,
        sender_peer_address: Seq::empty(),
        sender_listen_port: 0,
        timestamp: now,
        source: MessageSource::Server,
    }
}

/// The same message to every entry of the directory, in entry order.
pub open spec fn broadcast_to(d: Seq<DirEntryView>, mv: MessageView) -> Seq<(u64, MessageView)> {
    d.map(|i: int, e: DirEntryView| (e.token, mv))
}

/// The directory after a join: whatever sat on the same user or token goes,
/// the joiner is recorded with a fresh heartbeat stamp.
pub open spec fn join_dir_spec(
    d: Seq<DirEntryView>,
    token: u64,
    m: MessageView,
    now: u64,
) -> Seq<DirEntryView> {
    remove_token_spec(remove_user_spec(d, m.sender_id), token).push(
        DirEntryView {
            token,
            user_id: m.sender_id,
            address: m.sender_peer_address,
            port: m.sender_listen_port,
            last_heartbeat: now,
        },
    )
}

/// What a join sends: one notice to every other registered connection, and
/// the current peer list to the joiner.
pub open spec fn join_out_spec(
    d: Seq<DirEntryView>,
    token: u64,
    m: MessageView,
    now: u64,
) -> Seq<(u64, MessageView)> {
    broadcast_to(
        remove_token_spec(remove_user_spec(d, m.sender_id), token),
        user_joined_view(m, now),
    ).push((token, peer_list_view(join_dir_spec(d, token, m, now), now)))
}

/// The directory after a leave: the sender's entry is gone.
pub open spec fn leave_dir_spec(d: Seq<DirEntryView>, token: u64, m: MessageView) -> Seq<
    DirEntryView,
> {
    remove_token_spec(remove_user_spec(d, m.sender_id), token)
}

pub open spec fn leave_out_spec(
    d: Seq<DirEntryView>,
    token: u64,
    m: MessageView,
    now: u64,
) -> Seq<(u64, MessageView)> {
    broadcast_to(leave_dir_spec(d, token, m), user_left_view(m.sender_id, now))
}

/// Chat routing: a targeted chat goes only to the target's connection, and
/// only if the target is registered; an untargeted chat goes to every
/// registered connection, the sender included.
pub open spec fn chat_out_spec(d: Seq<DirEntryView>, m: MessageView) -> Seq<(u64, MessageView)> {
    match m.target_id {
        Some(t) => match find_user(d, t) {
            Some(e) => seq![(e.token, m)],
            None => Seq::empty(),
        },
        None => broadcast_to(d, m),
    }
}

pub open spec fn connect_request_out_spec(
    d: Seq<DirEntryView>,
    token: u64,
    m: MessageView,
    now: u64,
) -> Seq<(u64, MessageView)> {
    match m.target_id {
        Some(t) => match find_user(d, t) {
            Some(e) => seq![(token, connect_response_view(e, m.sender_id, now))],
            None => Seq::empty(),
        },
        None => Seq::empty(),
    }
}

/// The full directory transition for one inbound message.
pub open spec fn server_step_dir(
    d: Seq<DirEntryView>,
    token: u64,
    m: MessageView,
    now: u64,
) -> Seq<DirEntryView> {
    match m.msg_type {
        MessageType::Join => join_dir_spec(d, token, m, now),
        MessageType::Leave => leave_dir_spec(d, token, m),
        MessageType::Heartbeat => refresh_spec(d, token, now),
        _ => d,
    }
}

/// The full reply list for one inbound message. Unrecognized types are
/// ignored, not an error.
pub open spec fn server_step_out(
    d: Seq<DirEntryView>,
    token: u64,
    m: MessageView,
    now: u64,
) -> Seq<(u64, MessageView)> {
    match m.msg_type {
        MessageType::Join => join_out_spec(d, token, m, now),
        MessageType::Leave => leave_out_spec(d, token, m, now),
        MessageType::Chat => chat_out_spec(d, m),
        MessageType::PeerListRequest => seq![(token, peer_list_view(d, now))],
        MessageType::ConnectRequest => connect_request_out_spec(d, token, m, now),
        _ => Seq::empty(),
    }
}

pub open spec fn heartbeat_due(last: u64, now: u64) -> bool {
    now >= last && now - last > HEARTBEAT_INTERVAL_MS
}

/// The relay server's verified core: the directory, the token arena and the
/// heartbeat schedule.
pub struct ServerState {
    dir: Directory,
    next_token: u64,
    last_heartbeat: u64,
}

impl ServerState {
    pub closed spec fn wf(&self) -> bool {
        &&& self.dir.wf()
        &&& forall|k: int|
            0 <= k < self.dir@.len() ==> #[trigger] self.dir@[k].token < self.next_token
    }

    pub closed spec fn directory(&self) -> Seq<DirEntryView> {
        self.dir@
    }

    pub closed spec fn next_token_spec(&self) -> u64 {
        self.next_token
    }

    pub closed spec fn last_heartbeat_spec(&self) -> u64 {
        self.last_heartbeat
    }

    /// A fresh server: empty directory, tokens starting past the listener's.
    pub fn new() -> (r: ServerState)
        ensures
            r.wf(),
            r.directory() == Seq::<DirEntryView>::empty(),
            r.next_token_spec() == 2,
            r.last_heartbeat_spec() == 0,
    {
        ServerState { dir: Directory::new(), next_token: 2, last_heartbeat: 0 }
    }

    /// Hands out the identity for a newly accepted connection: fresh for
    /// the lifetime of the server, never a token the directory still maps.
    pub fn accept_connection(&mut self) -> (token: u64)
        requires
            old(self).wf(),
            old(self).next_token_spec() < u64::MAX,
        ensures
            final(self).wf(),
            token == old(self).next_token_spec(),
            final(self).next_token_spec() == old(self).next_token_spec() + 1,
            final(self).directory() == old(self).directory(),
            final(self).last_heartbeat_spec() == old(self).last_heartbeat_spec(),
            forall|k: int|
                0 <= k < final(self).directory().len()
                    ==> #[trigger] final(self).directory()[k].token != token,
    {
        let token = self.next_token;
        self.next_token = self.next_token + 1;
        token
    }

    /// The current peer list, as a message for one recipient.
    fn peer_list_message(&self, now: u64) -> (m: Message)
        ensures
            m@ == peer_list_view(self.dir@, now),
    {
        let ps = self.dir.snapshot();
        let content = peer_list_content(&ps);
        proof {
            encode_utf8_decode_utf8(content@);
        }
        let m = Message {
            msg_type: MessageType::PeerList,
            sender_id: "SERVER".to_owned(),
            target_id: None,
            content: Some(content),
            sender_peer_address: String::new(),
            sender_listen_port: 0,
            timestamp: now,
            source: MessageSource::Server,
        };
        proof {
            assert(m@.sender_peer_address =~= Seq::<char>::empty());
        }
        m
    }

    /// Join: record the sender, tell everyone else, reply with the list.
    pub fn handle_join_message(&mut self, message: &Message, token: u64, now: u64) -> (out: Vec<
        Outgoing,
    >)
        requires
            old(self).wf(),
            token < old(self).next_token_spec(),
        ensures
            final(self).wf(),
            final(self).directory() == join_dir_spec(old(self).directory(), token, message@, now),
            outgoing_view(out@) == join_out_spec(old(self).directory(), token, message@, now),
            final(self).next_token_spec() == old(self).next_token_spec(),
            final(self).last_heartbeat_spec() == old(self).last_heartbeat_spec(),
            count_user(final(self).directory(), message@.sender_id) == 1,
    {
        let ghost d0 = self.dir@;
        proof {
            crate::directory::lemma_remove_both_props(d0, message@.sender_id, token);
            lemma_count_after_join(
                d0,
                message@.sender_id,
                token,
                DirEntryView {
                    token,
                    user_id: message@.sender_id,
                    address: message@.sender_peer_address,
                    port: message@.sender_listen_port,
                    last_heartbeat: now,
                },
            );
        }
        self.dir.remove_by_user(&message.sender_id);
        self.dir.remove_by_token(token);
        let ghost others = self.dir@;
        // notify the users that were already registered
        let notice = Message {
            msg_type: MessageType::UserJoined,
            sender_id: message.sender_id.clone(),
            target_id: None,
            content: Some(message.sender_id.clone()),
            sender_peer_address: message.sender_peer_address.clone(),
            sender_listen_port: message.sender_listen_port,
            timestamp: now,
            source: MessageSource::Server,
        };
        proof {
            assert(notice@ == user_joined_view(message@, now));
        }
        let mut out: Vec<Outgoing> = Vec::new();
        let tokens = self.dir.tokens();
        let n = tokens.len();
        let mut i: usize = 0;
        while i < n
            invariant
                i <= n,
                n == tokens@.len() == others.len(),
                tokens@ == others.map(|k: int, e: DirEntryView| e.token),
                notice@ == user_joined_view(message@, now),
                outgoing_view(out@) == broadcast_to(others, user_joined_view(message@, now)).take(
                    i as int,
                ),
            decreases n - i,
        {
            let ghost pre = outgoing_view(out@);
            out.push(Outgoing { token: tokens[i], message: notice.duplicate() });
            proof {
                assert(outgoing_view(out@) =~= pre.push(
                    (others[i as int].token, user_joined_view(message@, now)),
                ));
                assert(broadcast_to(others, user_joined_view(message@, now)).take(i as int + 1)
                    =~= broadcast_to(others, user_joined_view(message@, now)).take(i as int).push(
                    (others[i as int].token, user_joined_view(message@, now)),
                ));
            }
            i = i + 1;
        }
        proof {
            assert(broadcast_to(others, user_joined_view(message@, now)).take(n as int)
                =~= broadcast_to(others, user_joined_view(message@, now)));
        }
        // record the joiner, then reply with the list that includes it
        self.dir.record(
            token,
            message.sender_id.clone(),
            message.sender_peer_address.clone(),
            message.sender_listen_port,
            now,
        );
        let reply = self.peer_list_message(now);
        let ghost pre = outgoing_view(out@);
        out.push(Outgoing { token, message: reply });
        proof {
            assert(outgoing_view(out@) =~= pre.push(
                (token, peer_list_view(join_dir_spec(d0, token, message@, now), now)),
            ));
            assert(outgoing_view(out@) =~= join_out_spec(d0, token, message@, now));
        }
        out
    }

    /// Leave: drop the sender's entry, tell everyone who remains.
    pub fn handle_leave_message(&mut self, message: &Message, token: u64, now: u64) -> (out: Vec<
        Outgoing,
    >)
        requires
            old(self).wf(),
        ensures
            final(self).wf(),
            final(self).directory() == leave_dir_spec(old(self).directory(), token, message@),
            outgoing_view(out@) == leave_out_spec(old(self).directory(), token, message@, now),
            final(self).next_token_spec() == old(self).next_token_spec(),
            final(self).last_heartbeat_spec() == old(self).last_heartbeat_spec(),
            !has_user(final(self).directory(), message@.sender_id),
    {
        let ghost d0 = self.dir@;
        proof {
            lemma_remove_user_spec_props(d0, message@.sender_id);
            lemma_remove_token_spec_props(remove_user_spec(d0, message@.sender_id), token);
        }
        self.dir.remove_by_user(&message.sender_id);
        self.dir.remove_by_token(token);
        let ghost remaining = self.dir@;
        proof {
            lemma_find_user_props(remaining, message@.sender_id);
            match find_user(remaining, message@.sender_id) {
                Some(e) => {
                    assert(false);
                },
                None => {},
            }
        }
        let notice = Message {
            msg_type: MessageType::UserLeft,
            sender_id: message.sender_id.clone(),
            target_id: None,
            content: Some(message.sender_id.clone()),
            sender_peer_address: String::new(),
            sender_listen_port: 0,
            timestamp: now,
            source: MessageSource::Server,
        };
        proof {
            assert(notice@.sender_peer_address =~= Seq::<char>::empty());
            assert(notice@ == user_left_view(message@.sender_id, now));
        }
        let mut out: Vec<Outgoing> = Vec::new();
        let tokens = self.dir.tokens();
        let n = tokens.len();
        let mut i: usize = 0;
        while i < n
            invariant
                i <= n,
                n == tokens@.len() == remaining.len(),
                tokens@ == remaining.map(|k: int, e: DirEntryView| e.token),
                notice@ == user_left_view(message@.sender_id, now),
                outgoing_view(out@) == broadcast_to(
                    remaining,
                    user_left_view(message@.sender_id, now),
                ).take(i as int),
            decreases n - i,
        {
            let ghost pre = outgoing_view(out@);
            out.push(Outgoing { token: tokens[i], message: notice.duplicate() });
            proof {
                assert(outgoing_view(out@) =~= pre.push(
                    (remaining[i as int].token, user_left_view(message@.sender_id, now)),
                ));
                assert(broadcast_to(remaining, user_left_view(message@.sender_id, now)).take(
                    i as int + 1,
                ) =~= broadcast_to(remaining, user_left_view(message@.sender_id, now)).take(
                    i as int,
                ).push((remaining[i as int].token, user_left_view(message@.sender_id, now))));
            }
            i = i + 1;
        }
        proof {
            assert(broadcast_to(remaining, user_left_view(message@.sender_id, now)).take(n as int)
                =~= broadcast_to(remaining, user_left_view(message@.sender_id, now)));
        }
        out
    }

    /// Chat: unicast to a registered target, silently drop an unknown one,
    /// broadcast (sender included) when no target is named.
    pub fn handle_chat_message(&mut self, message: &Message) -> (out: Vec<Outgoing>)
        requires
            old(self).wf(),
        ensures
            final(self).wf(),
            *final(self) == *old(self),
            outgoing_view(out@) == chat_out_spec(old(self).directory(), message@),
    {
        let mut out: Vec<Outgoing> = Vec::new();
        match &message.target_id {
            Some(target) => {
                match self.dir.lookup_user(target) {
                    Some(e) => {
                        let ghost ev = e@;
                        out.push(Outgoing { token: e.token, message: message.duplicate() });
                        proof {
                            assert(outgoing_view(out@) =~= seq![(ev.token, message@)]);
                        }
                    },
                    None => {
                        proof {
                            assert(outgoing_view(out@) =~= Seq::<(u64, MessageView)>::empty());
                        }
                    },
                }
            },
            None => {
                let ghost d = self.dir@;
                let tokens = self.dir.tokens();
                let n = tokens.len();
                let mut i: usize = 0;
                proof {
                    assert(outgoing_view(out@) =~= broadcast_to(d, message@).take(0));
                }
                while i < n
                    invariant
                        i <= n,
                        n == tokens@.len() == d.len(),
                        tokens@ == d.map(|k: int, e: DirEntryView| e.token),
                        outgoing_view(out@) == broadcast_to(d, message@).take(i as int),
                    decreases n - i,
                {
                    let ghost pre = outgoing_view(out@);
                    out.push(Outgoing { token: tokens[i], message: message.duplicate() });
                    proof {
                        assert(outgoing_view(out@) =~= pre.push((d[i as int].token, message@)));
                        assert(broadcast_to(d, message@).take(i as int + 1) =~= broadcast_to(
                            d,
                            message@,
                        ).take(i as int).push((d[i as int].token, message@)));
                    }
                    i = i + 1;
                }
                proof {
                    assert(broadcast_to(d, message@).take(n as int) =~= broadcast_to(d, message@));
                }
            },
        }
        out
    }

    /// Heartbeat: refresh the sender's stamp; no reply.
    pub fn handle_heartbeat_message(&mut self, token: u64, now: u64)
        requires
            old(self).wf(),
        ensures
            final(self).wf(),
            final(self).directory() == refresh_spec(old(self).directory(), token, now),
            final(self).next_token_spec() == old(self).next_token_spec(),
            final(self).last_heartbeat_spec() == old(self).last_heartbeat_spec(),
    {
        self.dir.refresh(token, now);
    }

    /// Peer list request: the full export, to the requester only.
    pub fn handle_peer_list_request(&mut self, token: u64, now: u64) -> (out: Vec<Outgoing>)
        requires
            old(self).wf(),
        ensures
            final(self).wf(),
            *final(self) == *old(self),
            outgoing_view(out@) == seq![(token, peer_list_view(old(self).directory(), now))],
    {
        let reply = self.peer_list_message(now);
        let mut out: Vec<Outgoing> = Vec::new();
        out.push(Outgoing { token, message: reply });
        proof {
            assert(outgoing_view(out@) =~= seq![(token, peer_list_view(self.dir@, now))]);
        }
        out
    }

    /// Connect request: if the target is registered, tell the requester the
    /// target's endpoint; if not, no reply at all.
    pub fn handle_connect_request(&mut self, message: &Message, token: u64, now: u64) -> (out: Vec<
        Outgoing,
    >)
        requires
            old(self).wf(),
        ensures
            final(self).wf(),
            *final(self) == *old(self),
            outgoing_view(out@) == connect_request_out_spec(
                old(self).directory(),
                token,
                message@,
                now,
            ),
    {
        let mut out: Vec<Outgoing> = Vec::new();
        match &message.target_id {
            Some(target) => {
                match self.dir.lookup_user(target) {
                    Some(e) => {
                        let ghost ev = e@;
                        let content = host_port_content(e.info.address.as_str(), e.info.port);
                        proof {
                            encode_utf8_decode_utf8(content@);
                        }
                        let reply = Message {
                            msg_type: MessageType::ConnectResponse,
                            sender_id: e.info.user_id,
                            target_id: Some(message.sender_id.clone()),
                            content: Some(content),
                            sender_peer_address: e.info.address,
                            sender_listen_port: e.info.port,
                            timestamp: now,
                            source: MessageSource::Server,
                        };
                        proof {
                            assert(reply@ == connect_response_view(ev, message@.sender_id, now));
                        }
                        out.push(Outgoing { token, message: reply });
                        proof {
                            assert(outgoing_view(out@) =~= seq![
                                (token, connect_response_view(ev, message@.sender_id, now)),
                            ]);
                        }
                    },
                    None => {
                        proof {
                            assert(outgoing_view(out@) =~= Seq::<(u64, MessageView)>::empty());
                        }
                    },
                }
            },
            None => {
                proof {
                    assert(outgoing_view(out@) =~= Seq::<(u64, MessageView)>::empty());
                }
            },
        }
        out
    }

    /// Dispatches one inbound frame's message: the exact transition
    /// `server_step_dir` / `server_step_out`.
    pub fn handle_message(&mut self, message: &Message, token: u64, now: u64) -> (out: Vec<
        Outgoing,
    >)
        requires
            old(self).wf(),
            token < old(self).next_token_spec(),
        ensures
            final(self).wf(),
            final(self).directory() == server_step_dir(
                old(self).directory(),
                token,
                message@,
                now,
            ),
            outgoing_view(out@) == server_step_out(old(self).directory(), token, message@, now),
            final(self).next_token_spec() == old(self).next_token_spec(),
            final(self).last_heartbeat_spec() == old(self).last_heartbeat_spec(),
    {
        match message.msg_type {
            MessageType::Join => self.handle_join_message(message, token, now),
            MessageType::Leave => self.handle_leave_message(message, token, now),
            MessageType::Chat => self.handle_chat_message(message),
            MessageType::Heartbeat => {
                self.handle_heartbeat_message(token, now);
                let out: Vec<Outgoing> = Vec::new();
                proof {
                    assert(outgoing_view(out@) =~= Seq::<(u64, MessageView)>::empty());
                }
                out
            },
            MessageType::PeerListRequest => self.handle_peer_list_request(token, now),
            MessageType::ConnectRequest => self.handle_connect_request(message, token, now),
            _ => {
                let out: Vec<Outgoing> = Vec::new();
                proof {
                    assert(outgoing_view(out@) =~= Seq::<(u64, MessageView)>::empty());
                }
                out
            },
        }
    }

    /// A connection died without a `Leave`: its entry goes, nobody is told
    /// (the asymmetry with an explicit leave is the protocol's own).
    pub fn handle_disconnect(&mut self, token: u64)
        requires
            old(self).wf(),
        ensures
            final(self).wf(),
            final(self).directory() == remove_token_spec(old(self).directory(), token),
            final(self).next_token_spec() == old(self).next_token_spec(),
            final(self).last_heartbeat_spec() == old(self).last_heartbeat_spec(),
    {
        proof {
            lemma_remove_token_spec_props(self.dir@, token);
        }
        self.dir.remove_by_token(token);
    }

    /// Broadcasts the server heartbeat when its interval has elapsed.
    pub fn check_heartbeat(&mut self, now: u64) -> (out: Vec<Outgoing>)
        requires
            old(self).wf(),
        ensures
            final(self).wf(),
            final(self).directory() == old(self).directory(),
            final(self).next_token_spec() == old(self).next_token_spec(),
            heartbeat_due(old(self).last_heartbeat_spec(), now) ==> outgoing_view(out@)
                == broadcast_to(old(self).directory(), server_heartbeat_view(now))
                && final(self).last_heartbeat_spec() == now,
            !heartbeat_due(old(self).last_heartbeat_spec(), now) ==> outgoing_view(out@)
                == Seq::<(u64, MessageView)>::empty()
                && final(self).last_heartbeat_spec() == old(self).last_heartbeat_spec(),
    {
        let mut out: Vec<Outgoing> = Vec::new();
        if now >= self.last_heartbeat && now - self.last_heartbeat > HEARTBEAT_INTERVAL_MS {
            let hb = Message {
                msg_type: MessageType::Heartbeat,
                sender_id: "SERVER".to_owned(),
                target_id: None,
                content: None,
                sender_peer_address: String::new(),
                sender_listen_port: 0,
                timestamp: now,
                source: MessageSource::Server,
            };
            proof {
                assert(hb@.sender_peer_address =~= Seq::<char>::empty());
                assert(hb@ == server_heartbeat_view(now));
            }
            let ghost d = self.dir@;
            let tokens = self.dir.tokens();
            let n = tokens.len();
            let mut i: usize = 0;
            proof {
                assert(outgoing_view(out@) =~= broadcast_to(d, server_heartbeat_view(now)).take(0));
            }
            while i < n
                invariant
                    i <= n,
                    n == tokens@.len() == d.len(),
                    tokens@ == d.map(|k: int, e: DirEntryView| e.token),
                    hb@ == server_heartbeat_view(now),
                    outgoing_view(out@) == broadcast_to(d, server_heartbeat_view(now)).take(
                        i as int,
                    ),
                decreases n - i,
            {
                let ghost pre = outgoing_view(out@);
                out.push(Outgoing { token: tokens[i], message: hb.duplicate() });
                proof {
                    assert(outgoing_view(out@) =~= pre.push(
                        (d[i as int].token, server_heartbeat_view(now)),
                    ));
                    assert(broadcast_to(d, server_heartbeat_view(now)).take(i as int + 1)
                        =~= broadcast_to(d, server_heartbeat_view(now)).take(i as int).push(
                        (d[i as int].token, server_heartbeat_view(now)),
                    ));
                }
                i = i + 1;
            }
            proof {
                assert(broadcast_to(d, server_heartbeat_view(now)).take(n as int) =~= broadcast_to(
                    d,
                    server_heartbeat_view(now),
                ));
            }
            self.last_heartbeat = now;
        } else {
            proof {
                assert(outgoing_view(out@) =~= Seq::<(u64, MessageView)>::empty());
            }
        }
        out
    }

    /// Evicts every entry whose heartbeat is older than the timeout window
    /// and reports their tokens so the caller can tear the sockets down.
    /// Evicted peers are not announced: only an explicit leave is.
    pub fn check_peer_timeouts(&mut self, now: u64) -> (removed: Vec<u64>)
        requires
            old(self).wf(),
        ensures
            final(self).wf(),
            final(self).directory() == evict_spec(old(self).directory(), now, PEER_TIMEOUT_MS),
            removed@ == evicted_tokens_spec(old(self).directory(), now, PEER_TIMEOUT_MS),
            final(self).next_token_spec() == old(self).next_token_spec(),
            final(self).last_heartbeat_spec() == old(self).last_heartbeat_spec(),
            forall|k: int|
                0 <= k < final(self).directory().len() ==> !stale(
                    #[trigger] final(self).directory()[k],
                    now,
                    PEER_TIMEOUT_MS,
                ),
    {
        proof {
            lemma_evict_spec_props(self.dir@, now, PEER_TIMEOUT_MS);
        }
        self.dir.evict_stale(now, PEER_TIMEOUT_MS)
    }

    /// How many users are registered.
    pub fn user_count(&self) -> (r: usize)
        ensures
            r == self.directory().len(),
    {
        self.dir.len()
    }
}

/// After a join from user U: the directory holds exactly one entry for U,
/// and the replies are one `UserJoined` naming U to each other registered
/// connection — each connection once, none of them the joiner's — followed
/// by the peer list to the joiner.
pub proof fn lemma_join_effects(d: Seq<DirEntryView>, token: u64, m: MessageView, now: u64)
    requires
        dir_wf(d),
    ensures
        ({
            let d1 = join_dir_spec(d, token, m, now);
            let out = join_out_spec(d, token, m, now);
            let others = remove_token_spec(remove_user_spec(d, m.sender_id), token);
            &&& count_user(d1, m.sender_id) == 1
            &&& out.len() == others.len() + 1
            &&& forall|k: int|
                0 <= k < others.len() ==> #[trigger] out[k] == (
                    others[k].token,
                    user_joined_view(m, now),
                )
            &&& user_joined_view(m, now).msg_type == MessageType::UserJoined
            &&& user_joined_view(m, now).content == Some(m.sender_id)
            &&& forall|k1: int, k2: int|
                0 <= k1 < k2 < others.len() ==> #[trigger] others[k1].token
                    != #[trigger] others[k2].token
            &&& forall|k: int| 0 <= k < others.len() ==> #[trigger] others[k].token != token
            &&& out[others.len() as int] == (token, peer_list_view(d1, now))
        }),
{
    crate::directory::lemma_remove_both_props(d, m.sender_id, token);
    lemma_count_after_join(
        d,
        m.sender_id,
        token,
        DirEntryView {
            token,
            user_id: m.sender_id,
            address: m.sender_peer_address,
            port: m.sender_listen_port,
            last_heartbeat: now,
        },
    );
    let others = remove_token_spec(remove_user_spec(d, m.sender_id), token);
    let bc = broadcast_to(others, user_joined_view(m, now));
    let out = join_out_spec(d, token, m, now);
    assert(forall|k: int| 0 <= k < others.len() ==> #[trigger] out[k] == bc[k]);
}

/// After a leave from user U: no entry for U remains, the leaving token is
/// gone, and every remaining connection is sent one `UserLeft` naming U.
pub proof fn lemma_leave_effects(d: Seq<DirEntryView>, token: u64, m: MessageView, now: u64)
    requires
        dir_wf(d),
    ensures
        ({
            let d1 = leave_dir_spec(d, token, m);
            let out = leave_out_spec(d, token, m, now);
            &&& !has_user(d1, m.sender_id)
            &&& forall|k: int| 0 <= k < d1.len() ==> #[trigger] d1[k].token != token
            &&& out.len() == d1.len()
            &&& forall|k: int|
                0 <= k < d1.len() ==> #[trigger] out[k] == (
                    d1[k].token,
                    user_left_view(m.sender_id, now),
                )
            &&& user_left_view(m.sender_id, now).msg_type == MessageType::UserLeft
            &&& user_left_view(m.sender_id, now).content == Some(m.sender_id)
            &&& forall|k1: int, k2: int|
                0 <= k1 < k2 < d1.len() ==> #[trigger] d1[k1].token != #[trigger] d1[k2].token
        }),
{
    crate::directory::lemma_remove_both_props(d, m.sender_id, token);
    let d1 = leave_dir_spec(d, token, m);
    lemma_find_user_props(d1, m.sender_id);
    match find_user(d1, m.sender_id) {
        Some(e) => {
            assert(false);
        },
        None => {},
    }
}

/// A connection that died without a leave: removing its token also removes
/// whichever user was registered on it, and no one else.
pub proof fn lemma_disconnect_removes_user(d: Seq<DirEntryView>, t: u64, u: Seq<char>)
    requires
        dir_wf(d),
    ensures
        match find_user(d, u) {
            Some(e) => e.token == t ==> !has_user(remove_token_spec(d, t), u),
            None => !has_user(remove_token_spec(d, t), u),
        },
{
    lemma_remove_token_spec_props(d, t);
    lemma_find_user_props(d, u);
    let d1 = remove_token_spec(d, t);
    lemma_find_user_props(d1, u);
    match find_user(d1, u) {
        Some(e1) => {
            let k = choose|i: int| 0 <= i < d1.len() && d1[i] == e1;
            let i1 = choose|i: int| 0 <= i < d.len() && d1[k] == d[i];
            match find_user(d, u) {
                Some(e) => {
                    if e.token == t {
                        let j = choose|i: int| 0 <= i < d.len() && d[i] == e;
                        if i1 != j {
                            assert(d[i1].user_id == u && d[j].user_id == u);
                            if i1 < j {
                                crate::directory::lemma_dir_wf_pair(d, i1, j);
                            } else {
                                crate::directory::lemma_dir_wf_pair(d, j, i1);
                            }
                            assert(false);
                        }
                        assert(d1[k].token == t);
                        assert(false);
                    }
                },
                None => {
                    assert(d[i1].user_id != u);
                    assert(false);
                },
            }
        },
        None => {},
    }
}

/// Chat routing: a targeted chat reaches zero or one connections — the
/// target's, exactly when the target is registered; an untargeted chat
/// reaches every registered connection exactly once, unchanged.
pub proof fn lemma_chat_routing(d: Seq<DirEntryView>, m: MessageView)
    requires
        dir_wf(d),
    ensures
        ({
            let out = chat_out_spec(d, m);
            match m.target_id {
                Some(t) => match find_user(d, t) {
                    Some(e) => out.len() == 1 && out[0] == (e.token, m) && e.user_id == t,
                    None => out.len() == 0,
                },
                None => out.len() == d.len() && (forall|k: int|
                    0 <= k < d.len() ==> #[trigger] out[k] == (d[k].token, m)) && (forall|
                    k1: int,
                    k2: int,
                |
                    0 <= k1 < k2 < d.len() ==> #[trigger] d[k1].token != #[trigger] d[k2].token),
            }
        }),
{
    match m.target_id {
        Some(t) => {
            lemma_find_user_props(d, t);
        },
        None => {},
    }
}

/// A stale entry is evicted by the sweep and is absent from every peer
/// list exported afterwards.
pub proof fn lemma_evicted_absent(d: Seq<DirEntryView>, u: Seq<char>, now: u64)
    requires
        dir_wf(d),
    ensures
        match find_user(d, u) {
            Some(e) => stale(e, now, PEER_TIMEOUT_MS) ==> !has_user(
                evict_spec(d, now, PEER_TIMEOUT_MS),
                u,
            ) && (forall|k: int|
                0 <= k < export(evict_spec(d, now, PEER_TIMEOUT_MS)).len()
                    ==> #[trigger] export(evict_spec(d, now, PEER_TIMEOUT_MS))[k].0 != u),
            None => true,
        },
{
    lemma_evict_spec_props(d, now, PEER_TIMEOUT_MS);
    lemma_find_user_props(d, u);
    let d1 = evict_spec(d, now, PEER_TIMEOUT_MS);
    lemma_find_user_props(d1, u);
    match find_user(d, u) {
        Some(e) => {
            if stale(e, now, PEER_TIMEOUT_MS) {
                let j = choose|i: int| 0 <= i < d.len() && d[i] == e;
                match find_user(d1, u) {
                    Some(e1) => {
                        let k = choose|i: int| 0 <= i < d1.len() && d1[i] == e1;
                        let i1 = choose|i: int| 0 <= i < d.len() && d1[k] == d[i];
                        if i1 != j {
                            if i1 < j {
                                crate::directory::lemma_dir_wf_pair(d, i1, j);
                            } else {
                                crate::directory::lemma_dir_wf_pair(d, j, i1);
                            }
                            assert(false);
                        }
                        assert(!stale(d1[k], now, PEER_TIMEOUT_MS));
                        assert(false);
                    },
                    None => {},
                }
                assert forall|k: int| 0 <= k < export(d1).len() implies #[trigger] export(d1)[k].0
                    != u by {
                    assert(export(d1)[k].0 == d1[k].user_id);
                    match find_user(d1, u) {
                        Some(_) => {
                            assert(false);
                        },
                        None => {
                            assert(d1[k].user_id != u);
                        },
                    }
                }
            }
        },
        None => {},
    }
}

} // verus!
