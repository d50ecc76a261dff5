//! The protocol envelope and the directory entry type.

use vstd::prelude::*;

verus! {

/// Which kind of socket delivered a message. The receiver sets this from the
/// link the frame arrived on; it is never trusted from the wire for routing.
#[derive(Debug, Clone, Copy, PartialEq, Eq, Structural)]
pub enum MessageSource {
    Server,
    Peer,
}

/// The closed vocabulary of protocol messages.
#[derive(Debug, Clone, Copy, PartialEq, Eq, Structural)]
pub enum MessageType {
    Join,
    Chat,
    Leave,
    PeerList,
    PeerListRequest,
    ConnectRequest,
    ConnectResponse,
    Heartbeat,
    UserJoined,
    UserLeft,
}

/// The source a decoded message carries until the receiver overrides it.
pub fn default_message_source() -> (r: MessageSource)
    ensures
        r == MessageSource::Server,
{
    MessageSource::Server
}

/// The protocol envelope. `target_id` is set iff the message is directed at
/// one recipient; absence means broadcast. `sender_peer_address` and
/// `sender_listen_port` advertise the sender's peer listener and may be
/// empty/0 for server-originated or untargeted messages. `timestamp` is
/// milliseconds since the epoch, stamped by the caller at send time.
#[derive(Debug)]
pub struct Message {
    pub msg_type: MessageType,
    pub sender_id: String,
    pub target_id: Option<String>,
    pub content: Option<String>,
    pub sender_peer_address: String,
    pub sender_listen_port: u16,
    pub timestamp: u64,
    pub source: MessageSource,
}

/// The mathematical value of a `Message`: every string as a `Seq<char>`.
pub struct MessageView {
    pub msg_type: MessageType,
    pub sender_id: Seq<char>,
    pub target_id: Option<Seq<char>>,
    pub content: Option<Seq<char>>,
    pub sender_peer_address: Seq<char>,
    pub sender_listen_port: u16,
    pub timestamp: u64,
    pub source: MessageSource,
}

pub open spec fn opt_string_view(s: Option<String>) -> Option<Seq<char>> {
    match s {
        Some(t) => Some(t@),
        None => None,
    }
}

impl View for Message {
    type V = MessageView;

    open spec fn view(&self) -> MessageView {
        MessageView {
            msg_type: self.msg_type,
            sender_id: self.sender_id@,
            target_id: opt_string_view(self.target_id),
            content: opt_string_view(self.content),
            sender_peer_address: self.sender_peer_address@,
            sender_listen_port: self.sender_listen_port,
            timestamp: self.timestamp,
            source: self.source,
        }
    }
}

impl Message {
    /// A fresh envelope of the given kind: no target, no content, no
    /// advertised endpoint, timestamp zero until the caller stamps it.
    pub fn new(msg_type: MessageType, sender_id: String) -> (m: Message)
        ensures
            m@ == (MessageView {
                msg_type,
                sender_id: sender_id@,
                target_id: None::<Seq<char>>,
                content: None::<Seq<char>>,
                sender_peer_address: Seq::<char>::empty(),
                sender_listen_port: 0u16,
                timestamp: 0u64,
                source: MessageSource::Server,
            }),
    {
        let m = Message {
            msg_type,
            sender_id,
            target_id: None,
            content: None,
            sender_peer_address: String::new(),
            sender_listen_port: 0,
            timestamp: 0,
            source: default_message_source(),
        };
        proof {
            assert(m@.sender_peer_address =~= Seq::<char>::empty());
        }
        m
    }

    pub fn with_content(self, content: String) -> (m: Message)
        ensures
            m@ == (MessageView { content: Some(content@), ..self@ }),
    {
        Message { content: Some(content), ..self }
    }

    pub fn with_target(self, target_id: String) -> (m: Message)
        ensures
            m@ == (MessageView { target_id: Some(target_id@), ..self@ }),
    {
        Message { target_id: Some(target_id), ..self }
    }

    pub fn with_peer_info(self, address: String, port: u16) -> (m: Message)
        ensures
            m@ == (MessageView {
                sender_peer_address: address@,
                sender_listen_port: port,
                ..self@
            }),
    {
        Message { sender_peer_address: address, sender_listen_port: port, ..self }
    }

    pub fn with_source(self, source: MessageSource) -> (m: Message)
        ensures
            m@ == (MessageView { source, ..self@ }),
    {
        Message { source, ..self }
    }

    pub fn with_timestamp(self, timestamp: u64) -> (m: Message)
        ensures
            m@ == (MessageView { timestamp, ..self@ }),
    {
        Message { timestamp, ..self }
    }

    /// A field-for-field copy, for fan-out to several recipients.
    pub fn duplicate(&self) -> (m: Message)
        ensures
            m@ == self@,
    {
        Message {
            msg_type: self.msg_type,
            sender_id: self.sender_id.clone(),
            target_id: match &self.target_id {
                Some(t) => Some(t.clone()),
                None => None,
            },
            content: match &self.content {
                Some(c) => Some(c.clone()),
                None => None,
            },
            sender_peer_address: self.sender_peer_address.clone(),
            sender_listen_port: self.sender_listen_port,
            timestamp: self.timestamp,
            source: self.source,
        }
    }
}

/// One directory entry: a user and the endpoint its peer listener advertises.
/// `last_heartbeat` is in milliseconds on the server's clock; it starts at
/// zero and the server refreshes it on join and on every heartbeat.
#[derive(Debug)]
pub struct PeerInfo {
    pub user_id: String,
    pub address: String,
    pub port: u16,
    pub last_heartbeat: u64,
}

/// The mathematical value of a `PeerInfo`.
pub struct PeerInfoView {
    pub user_id: Seq<char>,
    pub address: Seq<char>,
    pub port: u16,
    pub last_heartbeat: u64,
}

impl View for PeerInfo {
    type V = PeerInfoView;

    open spec fn view(&self) -> PeerInfoView {
        PeerInfoView {
            user_id: self.user_id@,
            address: self.address@,
            port: self.port,
            last_heartbeat: self.last_heartbeat,
        }
    }
}

impl PeerInfo {
    pub fn new(user_id: String, address: String, port: u16) -> (p: PeerInfo)
        ensures
            p@ == (PeerInfoView {
                user_id: user_id@,
                address: address@,
                port,
                last_heartbeat: 0u64,
            }),
    {
        PeerInfo { user_id, address, port, last_heartbeat: 0 }
    }

    pub fn duplicate(&self) -> (p: PeerInfo)
        ensures
            p@ == self@,
    {
        PeerInfo {
            user_id: self.user_id.clone(),
            address: self.address.clone(),
            port: self.port,
            last_heartbeat: self.last_heartbeat,
        }
    }
}

/// What can go wrong inside the protocol core. Transport errors carry the
/// reporting text of the failed socket operation; the core itself only ever
/// produces `SerializationError` and `PeerNotFound`.
#[derive(Debug)]
pub enum P2PError {
    IoError(String),
    SerializationError(String),
    ConnectionError(String),
    PeerNotFound,
}

impl PartialEq for Message {
    /// Two messages are equal when every field agrees.
    fn eq(&self, other: &Self) -> (r: bool)
        ensures
            r == (self@ == other@),
    {
        let target_ok = match (&self.target_id, &other.target_id) {
            (None, None) => true,
            (Some(a), Some(b)) => a.eq(b),
            _ => false,
        };
        let content_ok = match (&self.content, &other.content) {
            (None, None) => true,
            (Some(a), Some(b)) => a.eq(b),
            _ => false,
        };
        let r = self.msg_type == other.msg_type && self.sender_id == other.sender_id && target_ok
            && content_ok && self.sender_peer_address == other.sender_peer_address
            && self.sender_listen_port == other.sender_listen_port && self.timestamp
            == other.timestamp && self.source == other.source;
        proof {
            if r {
                assert(self@ == other@);
            }
        }
        r
    }
}

impl vstd::std_specs::cmp::PartialEqSpecImpl for Message {
    open spec fn obeys_eq_spec() -> bool {
        true
    }

    open spec fn eq_spec(&self, other: &Self) -> bool {
        self@ == other@
    }
}

impl PartialEq for PeerInfo {
    /// Two entries are equal when every field agrees.
    fn eq(&self, other: &Self) -> (r: bool)
        ensures
            r == (self@ == other@),
    {
        let r = self.user_id == other.user_id && self.address == other.address && self.port
            == other.port && self.last_heartbeat == other.last_heartbeat;
        proof {
            if r {
                assert(self@ == other@);
            }
        }
        r
    }
}

impl vstd::std_specs::cmp::PartialEqSpecImpl for PeerInfo {
    open spec fn obeys_eq_spec() -> bool {
        true
    }

    open spec fn eq_spec(&self, other: &Self) -> bool {
        self@ == other@
    }
}

} // verus!
