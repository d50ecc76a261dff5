//! The client's protocol core: the known-peer directory, the direct-link
//! table, smart routing (a direct link when one exists, the server
//! otherwise), connect negotiation, heartbeat timing and the reconnect
//! policy. Sockets, polling and the command channel live with the caller;
//! every decision is made here on plain values.

use vstd::prelude::*;
use vstd::utf8::*;

verus! {

use crate::messages::{Message, MessageType, MessageSource, MessageView, PeerInfo, PeerInfoView, opt_string_view};
use crate::peerlist::{decode_peer_list_bytes, parse_host_port, decode_peer_list, parse_host_port_content};

/// How often the client sends its heartbeat while connected, in
/// milliseconds.
pub const CLIENT_HEARTBEAT_INTERVAL_MS: u64 = 30000;

/// How long the client waits between reconnect attempts, in milliseconds.
pub const RECONNECT_DELAY_MS: u64 = 2000;

/// How many reconnect attempts are made before falling back to degraded
/// (server-disconnected) mode.
pub const MAX_RECONNECT_ATTEMPTS: u32 = 5;

/// The first token handed to a direct peer link, past the reserved ones.
pub const FIRST_PEER_TOKEN: u64 = 1000;

/// Where one outbound message should go.
pub enum MessageTarget {
    Server,
    Peer(u64),
}

/// A fully formed message with its routing target, ready for the outbox.
pub struct PendingMessage {
    pub target: MessageTarget,
    pub message: Message,
}

/// What an external actor may ask of the running client.
pub enum ClientCommand {
    Stop,
    ConnectToPeer(String),
    SendDirectMessage(String, String),
    SmartSendMessage(Option<String>, String),
    ListPeers,
    ShowStatus,
    RefreshPeers,
}

/// What the caller must do after a handler ran: show a chat line, dial a
/// peer, or close the socket of a torn-down link.
pub enum ClientAction {
    Deliver(Message),
    Dial { peer_id: String, address: String, port: u16 },
    DropLink(u64),
}

pub enum ClientActionView {
    Deliver(MessageView),
    Dial { peer_id: Seq<char>, address: Seq<char>, port: u16 },
    DropLink(u64),
}

pub open spec fn action_view(a: ClientAction) -> ClientActionView {
    match a {
        ClientAction::Deliver(m) => ClientActionView::Deliver(m@),
        ClientAction::Dial { peer_id, address, port } => ClientActionView::Dial {
            peer_id: peer_id@,
            address: address@,
            port,
        },
        ClientAction::DropLink(t) => ClientActionView::DropLink(t),
    }
}

pub open spec fn actions_view(r: Seq<ClientAction>) -> Seq<ClientActionView> {
    r.map(|i: int, a: ClientAction| action_view(a))
}

/// One established direct link: the peer and the socket token that carries
/// it.
pub struct PeerLink {
    pub peer_id: String,
    pub token: u64,
}

pub struct PeerLinkView {
    pub peer_id: Seq<char>,
    pub token: u64,
}

impl View for PeerLink {
    type V = PeerLinkView;

    open spec fn view(&self) -> PeerLinkView {
        PeerLinkView { peer_id: self.peer_id@, token: self.token }
    }
}

pub open spec fn links_view(ls: Seq<PeerLink>) -> Seq<PeerLinkView> {
    ls.map(|i: int, l: PeerLink| l@)
}

pub open spec fn find_link(ls: Seq<PeerLinkView>, p: Seq<char>) -> Option<PeerLinkView>
    decreases ls.len(),
{
    if ls.len() == 0 {
        None
    } else if ls[0].peer_id == p {
        Some(ls[0])
    } else {
        find_link(ls.skip(1), p)
    }
}

pub open spec fn has_link(ls: Seq<PeerLinkView>, p: Seq<char>) -> bool {
    find_link(ls, p) is Some
}

pub open spec fn link_of_token(ls: Seq<PeerLinkView>, t: u64) -> Option<PeerLinkView>
    decreases ls.len(),
{
    if ls.len() == 0 {
        None
    } else if ls[0].token == t {
        Some(ls[0])
    } else {
        link_of_token(ls.skip(1), t)
    }
}

pub open spec fn remove_link_by_user(ls: Seq<PeerLinkView>, p: Seq<char>) -> Seq<PeerLinkView>
    decreases ls.len(),
{
    if ls.len() == 0 {
        Seq::empty()
    } else if ls[0].peer_id == p {
        remove_link_by_user(ls.skip(1), p)
    } else {
        seq![ls[0]] + remove_link_by_user(ls.skip(1), p)
    }
}

pub open spec fn remove_link_by_token(ls: Seq<PeerLinkView>, t: u64) -> Seq<PeerLinkView>
    decreases ls.len(),
{
    if ls.len() == 0 {
        Seq::empty()
    } else if ls[0].token == t {
        remove_link_by_token(ls.skip(1), t)
    } else {
        seq![ls[0]] + remove_link_by_token(ls.skip(1), t)
    }
}

pub open spec fn peers_view(ps: Seq<PeerInfo>) -> Seq<PeerInfoView> {
    ps.map(|i: int, p: PeerInfo| p@)
}

pub open spec fn find_peer(ps: Seq<PeerInfoView>, u: Seq<char>) -> Option<PeerInfoView>
    decreases ps.len(),
{
    if ps.len() == 0 {
        None
    } else if ps[0].user_id == u {
        Some(ps[0])
    } else {
        find_peer(ps.skip(1), u)
    }
}

pub open spec fn remove_peer_spec(ps: Seq<PeerInfoView>, u: Seq<char>) -> Seq<PeerInfoView>
    decreases ps.len(),
{
    if ps.len() == 0 {
        Seq::empty()
    } else if ps[0].user_id == u {
        remove_peer_spec(ps.skip(1), u)
    } else {
        seq![ps[0]] + remove_peer_spec(ps.skip(1), u)
    }
}

/// One peer-list entry folded into the known peers: the own id is skipped,
/// anyone else replaces what was known of them.
pub open spec fn upsert_one(
    ps: Seq<PeerInfoView>,
    e: (Seq<char>, Seq<char>, u16),
    own: Seq<char>,
) -> Seq<PeerInfoView> {
    if e.0 == own {
        ps
    } else {
        remove_peer_spec(ps, e.0).push(
            PeerInfoView { user_id: e.0, address: e.1, port: e.2, last_heartbeat: 0 },
        )
    }
}

/// A whole peer list folded in, in list order.
pub open spec fn merge_peers(
    ps: Seq<PeerInfoView>,
    inc: Seq<(Seq<char>, Seq<char>, u16)>,
    own: Seq<char>,
) -> Seq<PeerInfoView>
    decreases inc.len(),
{
    if inc.len() == 0 {
        ps
    } else {
        merge_peers(upsert_one(ps, inc[0], own), inc.skip(1), own)
    }
}

/// The smart-send routing rule: a named target with an established direct
/// link goes over that link; everything else goes via the server.
pub open spec fn smart_route(ls: Seq<PeerLinkView>, target: Option<Seq<char>>) -> Option<u64> {
    match target {
        Some(t) => match find_link(ls, t) {
            Some(l) => Some(l.token),
            None => None,
        },
        None => None,
    }
}

/// The address every message of this client advertises.
pub open spec fn local_host_chars() -> Seq<char> {
    "127.0.0.1"@
}

/// A chat routed over a direct link.
pub open spec fn direct_chat_view(
    own: Seq<char>,
    target: Option<Seq<char>>,
    content: Seq<char>,
    listen_port: u16,
    now: u64,
) -> MessageView {
    MessageView {
        msg_type: MessageType::Chat,
        sender_id: own,
        target_id: target,
        content: Some(content),
        sender_peer_address: local_host_chars(),
        sender_listen_port: listen_port,
        timestamp: now,
        source: MessageSource::Peer,
    }
}

/// A chat routed via the server.
pub open spec fn server_chat_view(
    own: Seq<char>,
    target: Option<Seq<char>>,
    content: Seq<char>,
    now: u64,
) -> MessageView {
    MessageView {
        msg_type: MessageType::Chat,
        sender_id: own,
        target_id: target,
        content: Some(content),
        sender_peer_address: local_host_chars(),
        sender_listen_port: 0,
        timestamp: now,
        source: MessageSource::Server,
    }
}

/// The join announcement, advertising the real peer-listener port.
pub open spec fn join_view(own: Seq<char>, listen_port: u16, now: u64) -> MessageView {
    MessageView {
        msg_type: MessageType::Join,
        sender_id: own,
        target_id: None,
        content: None,
        sender_peer_address: local_host_chars(),
        sender_listen_port: listen_port,
        timestamp: now,
        source: MessageSource::Server,
    }
}

pub open spec fn client_heartbeat_view(own: Seq<char>, listen_port: u16, now: u64) -> MessageView {
    MessageView {
        msg_type: MessageType::Heartbeat,
        sender_id: own,
        target_id: None,
        content: None,
        sender_peer_address: local_host_chars(),
        sender_listen_port: listen_port,
        timestamp: now,
        source: MessageSource::Server,
    }
}

pub open spec fn peer_list_request_view(own: Seq<char>, now: u64) -> MessageView {
    MessageView {
        msg_type: MessageType::PeerListRequest,
        sender_id: own,
        target_id: None,
        content: None,
        sender_peer_address: local_host_chars(),
        sender_listen_port: 0,
        timestamp: now,
        source: MessageSource::Server,
    }
}

pub open spec fn connect_request_view(own: Seq<char>, target: Seq<char>, now: u64) -> MessageView {
    MessageView {
        msg_type: MessageType::ConnectRequest,
        sender_id: own,
        target_id: Some(target),
        content: None,
        sender_peer_address: local_host_chars(),
        sender_listen_port: 0,
        timestamp: now,
        source: MessageSource::Server,
    }
}

/// What to do about a wish to reach a peer directly.
pub enum PeerConnectPlan {
    SelfTarget,
    AlreadyLinked(u64),
    Dial { address: String, port: u16 },
    RequestAddress,
}

/// What the reconnect loop should do next, given the attempt count so far.
pub enum ReconnectStep {
    TryNow,
    Degraded,
}

/// Bounded retries with a fixed delay: try while attempts remain, then
/// fall back to degraded mode and reset the counter to try again later.
pub fn reconnect_step(attempts: u32) -> (r: ReconnectStep)
    ensures
        r is TryNow <==> attempts < MAX_RECONNECT_ATTEMPTS,
{
    if attempts < MAX_RECONNECT_ATTEMPTS {
        ReconnectStep::TryNow
    } else {
        ReconnectStep::Degraded
    }
}

pub open spec fn links_wf(ls: Seq<PeerLinkView>, next: u64) -> bool {
    &&& forall|i: int, j: int|
        0 <= i < j < ls.len() ==> #[trigger] ls[i].peer_id != #[trigger] ls[j].peer_id && ls[i].token
            != ls[j].token
    &&& forall|k: int| 0 <= k < ls.len() ==> #[trigger] ls[k].token < next
}

pub open spec fn peers_wf(ps: Seq<PeerInfoView>, own: Seq<char>) -> bool {
    &&& forall|i: int, j: int|
        0 <= i < j < ps.len() ==> #[trigger] ps[i].user_id != #[trigger] ps[j].user_id
    &&& forall|k: int| 0 <= k < ps.len() ==> #[trigger] ps[k].user_id != own
}

pub proof fn lemma_find_link_props(ls: Seq<PeerLinkView>, p: Seq<char>)
    ensures
        match find_link(ls, p) {
            Some(l) => l.peer_id == p && exists|i: int| 0 <= i < ls.len() && #[trigger] ls[i] == l,
            None => forall|i: int| 0 <= i < ls.len() ==> #[trigger] ls[i].peer_id != p,
        },
    decreases ls.len(),
{
    if ls.len() == 0 {
    } else if ls[0].peer_id == p {
        assert(exists|i: int| 0 <= i < ls.len() && #[trigger] ls[i] == ls[0]) by {
            assert(ls[0] == ls[0]);
        }
    } else {
        lemma_find_link_props(ls.skip(1), p);
        assert(forall|i: int| 0 <= i < ls.skip(1).len() ==> ls.skip(1)[i] == ls[i + 1]);
        match find_link(ls.skip(1), p) {
            Some(l) => {
                let i0 = choose|i: int| 0 <= i < ls.skip(1).len() && ls.skip(1)[i] == l;
                assert(ls[i0 + 1] == l);
            },
            None => {
                assert forall|i: int| 0 <= i < ls.len() implies #[trigger] ls[i].peer_id != p by {
                    if i > 0 {
                        assert(ls.skip(1)[i - 1] == ls[i]);
                    }
                }
            },
        }
    }
}

pub proof fn lemma_link_of_token_props(ls: Seq<PeerLinkView>, t: u64)
    ensures
        match link_of_token(ls, t) {
            Some(l) => l.token == t && exists|i: int| 0 <= i < ls.len() && #[trigger] ls[i] == l,
            None => forall|i: int| 0 <= i < ls.len() ==> #[trigger] ls[i].token != t,
        },
    decreases ls.len(),
{
    if ls.len() == 0 {
    } else if ls[0].token == t {
        assert(exists|i: int| 0 <= i < ls.len() && #[trigger] ls[i] == ls[0]) by {
            assert(ls[0] == ls[0]);
        }
    } else {
        lemma_link_of_token_props(ls.skip(1), t);
        assert(forall|i: int| 0 <= i < ls.skip(1).len() ==> ls.skip(1)[i] == ls[i + 1]);
        match link_of_token(ls.skip(1), t) {
            Some(l) => {
                let i0 = choose|i: int| 0 <= i < ls.skip(1).len() && ls.skip(1)[i] == l;
                assert(ls[i0 + 1] == l);
            },
            None => {
                assert forall|i: int| 0 <= i < ls.len() implies #[trigger] ls[i].token != t by {
                    if i > 0 {
                        assert(ls.skip(1)[i - 1] == ls[i]);
                    }
                }
            },
        }
    }
}

pub proof fn lemma_remove_link_by_user_props(ls: Seq<PeerLinkView>, p: Seq<char>, next: u64)
    ensures
        forall|k: int|
            0 <= k < remove_link_by_user(ls, p).len() ==> #[trigger] remove_link_by_user(
                ls,
                p,
            )[k].peer_id != p,
        forall|k: int|
            0 <= k < remove_link_by_user(ls, p).len() ==> exists|i: int|
                0 <= i < ls.len() && #[trigger] remove_link_by_user(ls, p)[k] == ls[i],
        links_wf(ls, next) ==> links_wf(remove_link_by_user(ls, p), next),
    decreases ls.len(),
{
    if ls.len() > 0 {
        lemma_remove_link_by_user_props(ls.skip(1), p, next);
        let rec = remove_link_by_user(ls.skip(1), p);
        assert(forall|i: int| 0 <= i < ls.skip(1).len() ==> ls.skip(1)[i] == ls[i + 1]);
        if ls[0].peer_id != p {
            let res = seq![ls[0]] + rec;
            assert(forall|k: int| 0 <= k < rec.len() ==> res[k + 1] == rec[k]);
            assert(res[0] == ls[0]);
            assert forall|k: int| 0 <= k < res.len() implies exists|i: int|
                0 <= i < ls.len() && #[trigger] res[k] == ls[i] by {
                if k == 0 {
                    assert(res[0] == ls[0]);
                } else {
                    let i0 = choose|i: int|
                        0 <= i < ls.skip(1).len() && rec[k - 1] == ls.skip(1)[i];
                    assert(res[k] == ls[i0 + 1]);
                }
            }
            if links_wf(ls, next) {
                assert forall|i: int, j: int| 0 <= i < j < res.len() implies #[trigger] res[i].peer_id
                    != #[trigger] res[j].peer_id && res[i].token != res[j].token by {
                    if i == 0 {
                        let i0 = choose|t: int|
                            0 <= t < ls.skip(1).len() && rec[j - 1] == ls.skip(1)[t];
                        assert(res[j] == ls[i0 + 1]);
                        assert(0 < i0 + 1 < ls.len());
                        assert(ls[0].peer_id != ls[i0 + 1].peer_id && ls[0].token != ls[i0
                            + 1].token);
                    } else {
                        assert(res[i] == rec[i - 1]);
                        assert(res[j] == rec[j - 1]);
                    }
                }
                assert forall|k: int| 0 <= k < res.len() implies #[trigger] res[k].token < next by {
                    let i0 = choose|i: int| 0 <= i < ls.len() && res[k] == ls[i];
                }
            }
        }
    }
}

pub proof fn lemma_remove_link_by_token_props(ls: Seq<PeerLinkView>, t: u64, next: u64)
    ensures
        forall|k: int|
            0 <= k < remove_link_by_token(ls, t).len() ==> #[trigger] remove_link_by_token(
                ls,
                t,
            )[k].token != t,
        forall|k: int|
            0 <= k < remove_link_by_token(ls, t).len() ==> exists|i: int|
                0 <= i < ls.len() && #[trigger] remove_link_by_token(ls, t)[k] == ls[i],
        links_wf(ls, next) ==> links_wf(remove_link_by_token(ls, t), next),
    decreases ls.len(),
{
    if ls.len() > 0 {
        lemma_remove_link_by_token_props(ls.skip(1), t, next);
        let rec = remove_link_by_token(ls.skip(1), t);
        assert(forall|i: int| 0 <= i < ls.skip(1).len() ==> ls.skip(1)[i] == ls[i + 1]);
        if ls[0].token != t {
            let res = seq![ls[0]] + rec;
            assert(forall|k: int| 0 <= k < rec.len() ==> res[k + 1] == rec[k]);
            assert(res[0] == ls[0]);
            assert forall|k: int| 0 <= k < res.len() implies exists|i: int|
                0 <= i < ls.len() && #[trigger] res[k] == ls[i] by {
                if k == 0 {
                    assert(res[0] == ls[0]);
                } else {
                    let i0 = choose|i: int|
                        0 <= i < ls.skip(1).len() && rec[k - 1] == ls.skip(1)[i];
                    assert(res[k] == ls[i0 + 1]);
                }
            }
            if links_wf(ls, next) {
                assert forall|i: int, j: int| 0 <= i < j < res.len() implies #[trigger] res[i].peer_id
                    != #[trigger] res[j].peer_id && res[i].token != res[j].token by {
                    if i == 0 {
                        let i0 = choose|s: int|
                            0 <= s < ls.skip(1).len() && rec[j - 1] == ls.skip(1)[s];
                        assert(res[j] == ls[i0 + 1]);
                        assert(0 < i0 + 1 < ls.len());
                        assert(ls[0].peer_id != ls[i0 + 1].peer_id && ls[0].token != ls[i0
                            + 1].token);
                    } else {
                        assert(res[i] == rec[i - 1]);
                        assert(res[j] == rec[j - 1]);
                    }
                }
                assert forall|k: int| 0 <= k < res.len() implies #[trigger] res[k].token < next by {
                    let i0 = choose|i: int| 0 <= i < ls.len() && res[k] == ls[i];
                }
            }
        }
    }
}

pub proof fn lemma_remove_peer_spec_props(ps: Seq<PeerInfoView>, u: Seq<char>, own: Seq<char>)
    ensures
        forall|k: int|
            0 <= k < remove_peer_spec(ps, u).len() ==> #[trigger] remove_peer_spec(
                ps,
                u,
            )[k].user_id != u,
        forall|k: int|
            0 <= k < remove_peer_spec(ps, u).len() ==> exists|i: int|
                0 <= i < ps.len() && #[trigger] remove_peer_spec(ps, u)[k] == ps[i],
        peers_wf(ps, own) ==> peers_wf(remove_peer_spec(ps, u), own),
    decreases ps.len(),
{
    if ps.len() > 0 {
        lemma_remove_peer_spec_props(ps.skip(1), u, own);
        let rec = remove_peer_spec(ps.skip(1), u);
        assert(forall|i: int| 0 <= i < ps.skip(1).len() ==> ps.skip(1)[i] == ps[i + 1]);
        if ps[0].user_id != u {
            let res = seq![ps[0]] + rec;
            assert(forall|k: int| 0 <= k < rec.len() ==> res[k + 1] == rec[k]);
            assert(res[0] == ps[0]);
            assert forall|k: int| 0 <= k < res.len() implies exists|i: int|
                0 <= i < ps.len() && #[trigger] res[k] == ps[i] by {
                if k == 0 {
                    assert(res[0] == ps[0]);
                } else {
                    let i0 = choose|i: int|
                        0 <= i < ps.skip(1).len() && rec[k - 1] == ps.skip(1)[i];
                    assert(res[k] == ps[i0 + 1]);
                }
            }
            if peers_wf(ps, own) {
                assert forall|i: int, j: int| 0 <= i < j < res.len() implies #[trigger] res[i].user_id
                    != #[trigger] res[j].user_id by {
                    if i == 0 {
                        let i0 = choose|t: int|
                            0 <= t < ps.skip(1).len() && rec[j - 1] == ps.skip(1)[t];
                        assert(res[j] == ps[i0 + 1]);
                        assert(0 < i0 + 1 < ps.len());
                        assert(ps[0].user_id != ps[i0 + 1].user_id);
                    } else {
                        assert(res[i] == rec[i - 1]);
                        assert(res[j] == rec[j - 1]);
                    }
                }
                assert forall|k: int| 0 <= k < res.len() implies #[trigger] res[k].user_id
                    != own by {
                    let i0 = choose|i: int| 0 <= i < ps.len() && res[k] == ps[i];
                }
            }
        }
    }
}

pub proof fn lemma_upsert_one_wf(ps: Seq<PeerInfoView>, e: (Seq<char>, Seq<char>, u16), own: Seq<char>)
    requires
        peers_wf(ps, own),
    ensures
        peers_wf(upsert_one(ps, e, own), own),
{
    if e.0 != own {
        lemma_remove_peer_spec_props(ps, e.0, own);
        let base = remove_peer_spec(ps, e.0);
        let res = upsert_one(ps, e, own);
        assert forall|i: int, j: int| 0 <= i < j < res.len() implies #[trigger] res[i].user_id
            != #[trigger] res[j].user_id by {
            if j == res.len() - 1 {
                assert(res[i] == base[i]);
                assert(res[j].user_id == e.0);
            } else {
                assert(res[i] == base[i]);
                assert(res[j] == base[j]);
            }
        }
        assert forall|k: int| 0 <= k < res.len() implies #[trigger] res[k].user_id != own by {
            if k < res.len() - 1 {
                assert(res[k] == base[k]);
            }
        }
    }
}

pub proof fn lemma_merge_peers_wf(
    ps: Seq<PeerInfoView>,
    inc: Seq<(Seq<char>, Seq<char>, u16)>,
    own: Seq<char>,
)
    requires
        peers_wf(ps, own),
    ensures
        peers_wf(merge_peers(ps, inc, own), own),
    decreases inc.len(),
{
    if inc.len() > 0 {
        lemma_upsert_one_wf(ps, inc[0], own);
        lemma_merge_peers_wf(upsert_one(ps, inc[0], own), inc.skip(1), own);
    }
}

/// Smart send bypasses the server exactly while a direct link stands: a
/// target with an established link is routed onto that link's token, one
/// without goes via the server, and an untargeted send always goes via the
/// server.
pub proof fn lemma_smart_send_bypasses_server(ls: Seq<PeerLinkView>, t: Seq<char>)
    ensures
        has_link(ls, t) ==> (smart_route(ls, Some(t)) matches Some(tok) && find_link(
            ls,
            t,
        ) matches Some(l) && tok == l.token),
        !has_link(ls, t) ==> smart_route(ls, Some(t)) is None,
        smart_route(ls, None) is None,
{
}

/// The user a `UserLeft` notice names: its content, or failing that its
/// sender.
pub open spec fn left_user(m: MessageView) -> Seq<char> {
    match m.content {
        Some(u) => u,
        None => m.sender_id,
    }
}

/// The client's verified core.
pub struct ClientState {
    user_id: String,
    listen_port: u16,
    connected: bool,
    known_peers: Vec<PeerInfo>,
    links: Vec<PeerLink>,
    next_peer_token: u64,
    last_heartbeat: u64,
}

impl ClientState {
    pub closed spec fn user_id_spec(&self) -> Seq<char> {
        self.user_id@
    }

    pub closed spec fn listen_port_spec(&self) -> u16 {
        self.listen_port
    }

    pub closed spec fn connected_spec(&self) -> bool {
        self.connected
    }

    pub closed spec fn peers_spec(&self) -> Seq<PeerInfoView> {
        peers_view(self.known_peers@)
    }

    pub closed spec fn links_spec(&self) -> Seq<PeerLinkView> {
        links_view(self.links@)
    }

    pub closed spec fn next_peer_token_spec(&self) -> u64 {
        self.next_peer_token
    }

    pub closed spec fn last_heartbeat_spec(&self) -> u64 {
        self.last_heartbeat
    }

    pub open spec fn wf(&self) -> bool {
        &&& links_wf(self.links_spec(), self.next_peer_token_spec())
        &&& peers_wf(self.peers_spec(), self.user_id_spec())
        &&& FIRST_PEER_TOKEN <= self.next_peer_token_spec()
    }

    /// Everything that one handler call leaves alone.
    pub open spec fn same_identity(&self, other: &ClientState) -> bool {
        &&& self.user_id_spec() == other.user_id_spec()
        &&& self.listen_port_spec() == other.listen_port_spec()
        &&& self.connected_spec() == other.connected_spec()
        &&& self.last_heartbeat_spec() == other.last_heartbeat_spec()
    }

    /// A fresh client: not yet connected, nothing known, no links.
    pub fn new(user_id: String, listen_port: u16) -> (r: ClientState)
        ensures
            r.wf(),
            r.user_id_spec() == user_id@,
            r.listen_port_spec() == listen_port,
            !r.connected_spec(),
            r.peers_spec() == Seq::<PeerInfoView>::empty(),
            r.links_spec() == Seq::<PeerLinkView>::empty(),
            r.next_peer_token_spec() == FIRST_PEER_TOKEN,
            r.last_heartbeat_spec() == 0,
    {
        let r = ClientState {
            user_id,
            listen_port,
            connected: false,
            known_peers: Vec::new(),
            links: Vec::new(),
            next_peer_token: FIRST_PEER_TOKEN,
            last_heartbeat: 0,
        };
        proof {
            assert(r.peers_spec() =~= Seq::<PeerInfoView>::empty());
            assert(r.links_spec() =~= Seq::<PeerLinkView>::empty());
        }
        r
    }

    pub fn is_connected(&self) -> (r: bool)
        ensures
            r == self.connected_spec(),
    {
        self.connected
    }

    /// Marks the server link up or down; nothing else changes.
    pub fn set_connected(&mut self, connected: bool)
        ensures
            final(self).connected_spec() == connected,
            final(self).user_id_spec() == old(self).user_id_spec(),
            final(self).listen_port_spec() == old(self).listen_port_spec(),
            final(self).peers_spec() == old(self).peers_spec(),
            final(self).links_spec() == old(self).links_spec(),
            final(self).next_peer_token_spec() == old(self).next_peer_token_spec(),
            final(self).last_heartbeat_spec() == old(self).last_heartbeat_spec(),
            old(self).wf() ==> final(self).wf(),
    {
        self.connected = connected;
    }

    /// The join announcement for (re)connecting to the server.
    pub fn join_message(&self, now: u64) -> (m: Message)
        ensures
            m@ == join_view(self.user_id_spec(), self.listen_port_spec(), now),
    {
        Message {
            msg_type: MessageType::Join,
            sender_id: self.user_id.clone(),
            target_id: None,
            content: None,
            sender_peer_address: "127.0.0.1".to_owned(),
            sender_listen_port: self.listen_port,
            timestamp: now,
            source: MessageSource::Server,
        }
    }

    pub fn peer_list_request_message(&self, now: u64) -> (m: Message)
        ensures
            m@ == peer_list_request_view(self.user_id_spec(), now),
    {
        Message {
            msg_type: MessageType::PeerListRequest,
            sender_id: self.user_id.clone(),
            target_id: None,
            content: None,
            sender_peer_address: "127.0.0.1".to_owned(),
            sender_listen_port: 0,
            timestamp: now,
            source: MessageSource::Server,
        }
    }

    pub fn connect_request_message(&self, target: String, now: u64) -> (m: Message)
        ensures
            m@ == connect_request_view(self.user_id_spec(), target@, now),
    {
        Message {
            msg_type: MessageType::ConnectRequest,
            sender_id: self.user_id.clone(),
            target_id: Some(target),
            content: None,
            sender_peer_address: "127.0.0.1".to_owned(),
            sender_listen_port: 0,
            timestamp: now,
            source: MessageSource::Server,
        }
    }

    /// The token of the direct link to this peer, if one stands.
    pub fn find_peer_token(&self, peer_id: &String) -> (r: Option<u64>)
        ensures
            match find_link(self.links_spec(), peer_id@) {
                Some(l) => r == Some(l.token),
                None => r is None,
            },
    {
        let ghost ls = self.links_spec();
        let n = self.links.len();
        let mut i: usize = 0;
        proof {
            assert(ls.skip(0) =~= ls);
        }
        while i < n
            invariant
                i <= n,
                n == self.links@.len(),
                ls == self.links_spec(),
                find_link(ls, peer_id@) == find_link(ls.skip(i as int), peer_id@),
            decreases n - i,
        {
            proof {
                assert(ls.skip(i as int)[0] == ls[i as int]);
                assert(ls[i as int] == self.links@[i as int]@);
                assert(ls.skip(i as int).skip(1) =~= ls.skip(i as int + 1));
            }
            if self.links[i].peer_id.eq(peer_id) {
                return Some(self.links[i].token);
            }
            i = i + 1;
        }
        proof {
            assert(ls.skip(n as int).len() == 0);
        }
        None
    }

    /// Smart send: route over the direct link when one is established,
    /// otherwise via the server; an untargeted chat always goes via the
    /// server, which owns broadcast.
    pub fn create_smart_chat_message(
        &self,
        target_id: Option<String>,
        content: String,
        now: u64,
    ) -> (r: PendingMessage)
        ensures
            match smart_route(self.links_spec(), opt_string_view(target_id)) {
                Some(tok) => (r.target matches MessageTarget::Peer(t) && t == tok) && r.message@
                    == direct_chat_view(
                    self.user_id_spec(),
                    opt_string_view(target_id),
                    content@,
                    self.listen_port_spec(),
                    now,
                ),
                None => r.target is Server && r.message@ == server_chat_view(
                    self.user_id_spec(),
                    opt_string_view(target_id),
                    content@,
                    now,
                ),
            },
    {
        match &target_id {
            Some(t) => {
                match self.find_peer_token(t) {
                    Some(tok) => {
                        let message = Message {
                            msg_type: MessageType::Chat,
                            sender_id: self.user_id.clone(),
                            target_id: Some(t.clone()),
                            content: Some(content),
                            sender_peer_address: "127.0.0.1".to_owned(),
                            sender_listen_port: self.listen_port,
                            timestamp: now,
                            source: MessageSource::Peer,
                        };
                        PendingMessage { target: MessageTarget::Peer(tok), message }
                    },
                    None => {
                        let message = Message {
                            msg_type: MessageType::Chat,
                            sender_id: self.user_id.clone(),
                            target_id,
                            content: Some(content),
                            sender_peer_address: "127.0.0.1".to_owned(),
                            sender_listen_port: 0,
                            timestamp: now,
                            source: MessageSource::Server,
                        };
                        PendingMessage { target: MessageTarget::Server, message }
                    },
                }
            },
            None => {
                let message = Message {
                    msg_type: MessageType::Chat,
                    sender_id: self.user_id.clone(),
                    target_id,
                    content: Some(content),
                    sender_peer_address: "127.0.0.1".to_owned(),
                    sender_listen_port: 0,
                    timestamp: now,
                    source: MessageSource::Server,
                };
                PendingMessage { target: MessageTarget::Server, message }
            },
        }
    }

    /// A chat built without a client instance: always routed via the server.
    pub fn create_chat_message_static(
        user_id: String,
        target_id: Option<String>,
        content: String,
        now: u64,
    ) -> (r: PendingMessage)
        ensures
            r.target is Server,
            r.message@ == server_chat_view(user_id@, opt_string_view(target_id), content@, now),
    {
        let message = Message {
            msg_type: MessageType::Chat,
            sender_id: user_id,
            target_id,
            content: Some(content),
            sender_peer_address: "127.0.0.1".to_owned(),
            sender_listen_port: 0,
            timestamp: now,
            source: MessageSource::Server,
        };
        PendingMessage { target: MessageTarget::Server, message }
    }

    /// The chat sent down an already chosen direct link.
    pub fn direct_chat_message(&self, peer_id: &String, content: String, now: u64) -> (m: Message)
        ensures
            m@ == direct_chat_view(
                self.user_id_spec(),
                Some(peer_id@),
                content@,
                0,
                now,
            ),
    {
        Message {
            msg_type: MessageType::Chat,
            sender_id: self.user_id.clone(),
            target_id: Some(peer_id.clone()),
            content: Some(content),
            sender_peer_address: "127.0.0.1".to_owned(),
            sender_listen_port: 0,
            timestamp: now,
            source: MessageSource::Peer,
        }
    }

    /// Peer connect: a no-op when the link stands, a dial when the address
    /// is known, a relayed address request otherwise. Dialling oneself is
    /// refused.
    pub fn plan_peer_connect(&self, peer_id: &String) -> (r: PeerConnectPlan)
        ensures
            peer_id@ == self.user_id_spec() ==> r is SelfTarget,
            peer_id@ != self.user_id_spec() && has_link(self.links_spec(), peer_id@) ==> (
            r matches PeerConnectPlan::AlreadyLinked(t) && find_link(
                self.links_spec(),
                peer_id@,
            ) matches Some(l) && t == l.token),
            peer_id@ != self.user_id_spec() && !has_link(self.links_spec(), peer_id@) ==> (
            match find_peer(self.peers_spec(), peer_id@) {
                Some(p) => r matches PeerConnectPlan::Dial { address, port } && address@
                    == p.address && port == p.port,
                None => r is RequestAddress,
            }),
    {
        if self.user_id.eq(peer_id) {
            return PeerConnectPlan::SelfTarget;
        }
        match self.find_peer_token(peer_id) {
            Some(t) => {
                return PeerConnectPlan::AlreadyLinked(t);
            },
            None => {},
        }
        let ghost ps = self.peers_spec();
        let n = self.known_peers.len();
        let mut i: usize = 0;
        proof {
            assert(ps.skip(0) =~= ps);
        }
        while i < n
            invariant
                i <= n,
                n == self.known_peers@.len(),
                ps == self.peers_spec(),
                peer_id@ != self.user_id_spec(),
                !has_link(self.links_spec(), peer_id@),
                find_peer(ps, peer_id@) == find_peer(ps.skip(i as int), peer_id@),
            decreases n - i,
        {
            proof {
                assert(ps.skip(i as int)[0] == ps[i as int]);
                assert(ps[i as int] == self.known_peers@[i as int]@);
                assert(ps.skip(i as int).skip(1) =~= ps.skip(i as int + 1));
            }
            if self.known_peers[i].user_id.eq(peer_id) {
                return PeerConnectPlan::Dial {
                    address: self.known_peers[i].address.clone(),
                    port: self.known_peers[i].port,
                };
            }
            i = i + 1;
        }
        proof {
            assert(ps.skip(n as int).len() == 0);
        }
        PeerConnectPlan::RequestAddress
    }

    /// Registers an outbound direct link just dialled: a fresh token, bound
    /// to the peer.
    pub fn register_peer_link(&mut self, peer_id: String) -> (token: u64)
        requires
            old(self).wf(),
            !has_link(old(self).links_spec(), peer_id@),
            old(self).next_peer_token_spec() < u64::MAX,
        ensures
            final(self).wf(),
            token == old(self).next_peer_token_spec(),
            final(self).next_peer_token_spec() == old(self).next_peer_token_spec() + 1,
            final(self).links_spec() == old(self).links_spec().push(
                PeerLinkView { peer_id: peer_id@, token },
            ),
            final(self).peers_spec() == old(self).peers_spec(),
            old(self).same_identity(final(self)),
    {
        proof {
            lemma_find_link_props(self.links_spec(), peer_id@);
        }
        let ghost ls0 = self.links_spec();
        let token = self.next_peer_token;
        self.next_peer_token = self.next_peer_token + 1;
        let l = PeerLink { peer_id, token };
        let ghost lv = l@;
        self.links.push(l);
        proof {
            assert(self.links_spec() =~= ls0.push(lv));
            assert forall|i: int, j: int| 0 <= i < j < self.links_spec().len() implies #[trigger] self.links_spec()[i].peer_id
                != #[trigger] self.links_spec()[j].peer_id && self.links_spec()[i].token
                != self.links_spec()[j].token by {
                if j == self.links_spec().len() - 1 {
                    assert(self.links_spec()[i] == ls0[i]);
                    assert(self.links_spec()[j] == lv);
                } else {
                    assert(self.links_spec()[i] == ls0[i]);
                    assert(self.links_spec()[j] == ls0[j]);
                }
            }
        }
        token
    }

    /// Hands out the token for an inbound direct connection whose remote
    /// identity is not yet known.
    pub fn accept_peer_token(&mut self) -> (token: u64)
        requires
            old(self).wf(),
            old(self).next_peer_token_spec() < u64::MAX,
        ensures
            final(self).wf(),
            token == old(self).next_peer_token_spec(),
            final(self).next_peer_token_spec() == old(self).next_peer_token_spec() + 1,
            final(self).links_spec() == old(self).links_spec(),
            final(self).peers_spec() == old(self).peers_spec(),
            old(self).same_identity(final(self)),
    {
        let token = self.next_peer_token;
        self.next_peer_token = self.next_peer_token + 1;
        token
    }

    /// Establishes the remote identity of an inbound link lazily: the first
    /// message naming a sender binds that sender to the socket's token,
    /// unless either side of the binding is already taken.
    pub fn note_peer_traffic(&mut self, token: u64, sender_id: &String)
        requires
            old(self).wf(),
        ensures
            final(self).wf(),
            ({
                let bind = sender_id@ != old(self).user_id_spec() && !has_link(
                    old(self).links_spec(),
                    sender_id@,
                ) && link_of_token(old(self).links_spec(), token) is None && token < old(self).next_peer_token_spec();
                final(self).links_spec() == if bind {
                    old(self).links_spec().push(PeerLinkView { peer_id: sender_id@, token })
                } else {
                    old(self).links_spec()
                }
            }),
            final(self).peers_spec() == old(self).peers_spec(),
            final(self).next_peer_token_spec() == old(self).next_peer_token_spec(),
            old(self).same_identity(final(self)),
    {
        proof {
            lemma_find_link_props(self.links_spec(), sender_id@);
            lemma_link_of_token_props(self.links_spec(), token);
        }
        if sender_id.eq(&self.user_id) {
            return ;
        }
        if token >= self.next_peer_token {
            return ;
        }
        match self.find_peer_token(sender_id) {
            Some(_) => {
                return ;
            },
            None => {},
        }
        // is the token already bound to someone?
        let ghost ls = self.links_spec();
        let n = self.links.len();
        let mut i: usize = 0;
        proof {
            assert(ls.skip(0) =~= ls);
        }
        while i < n
            invariant
                i <= n,
                n == self.links@.len(),
                *self == *old(self),
                old(self).wf(),
                ls == self.links_spec(),
                sender_id@ != self.user_id_spec(),
                find_link(ls, sender_id@) is None,
                token < self.next_peer_token_spec(),
                link_of_token(ls, token) == link_of_token(ls.skip(i as int), token),
            decreases n - i,
        {
            proof {
                assert(ls.skip(i as int)[0] == ls[i as int]);
                assert(ls[i as int] == self.links@[i as int]@);
                assert(ls.skip(i as int).skip(1) =~= ls.skip(i as int + 1));
            }
            if self.links[i].token == token {
                return ;
            }
            i = i + 1;
        }
        proof {
            assert(ls.skip(n as int).len() == 0);
        }
        let ghost ls0 = self.links_spec();
        let l = PeerLink { peer_id: sender_id.clone(), token };
        let ghost lv = l@;
        self.links.push(l);
        proof {
            assert(self.links_spec() =~= ls0.push(lv));
            assert forall|a: int, b: int| 0 <= a < b < self.links_spec().len() implies #[trigger] self.links_spec()[a].peer_id
                != #[trigger] self.links_spec()[b].peer_id && self.links_spec()[a].token
                != self.links_spec()[b].token by {
                if b == self.links_spec().len() - 1 {
                    assert(self.links_spec()[a] == ls0[a]);
                    assert(self.links_spec()[b] == lv);
                } else {
                    assert(self.links_spec()[a] == ls0[a]);
                    assert(self.links_spec()[b] == ls0[b]);
                }
            }
        }
    }

    /// Tears down the direct link on this token, if one stands; the known
    /// peers are untouched.
    pub fn remove_peer(&mut self, token: u64)
        requires
            old(self).wf(),
        ensures
            final(self).wf(),
            final(self).links_spec() == remove_link_by_token(old(self).links_spec(), token),
            final(self).peers_spec() == old(self).peers_spec(),
            final(self).next_peer_token_spec() == old(self).next_peer_token_spec(),
            old(self).same_identity(final(self)),
    {
        proof {
            lemma_remove_link_by_token_props(
                self.links_spec(),
                token,
                self.next_peer_token_spec(),
            );
        }
        let mut kept: Vec<PeerLink> = Vec::new();
        let ghost ls = self.links_spec();
        let n = self.links.len();
        let mut i: usize = 0;
        proof {
            assert(ls.skip(0) =~= ls);
            assert(links_view(kept@) =~= Seq::<PeerLinkView>::empty());
            assert(links_view(kept@) + remove_link_by_token(ls.skip(0), token)
                =~= remove_link_by_token(ls, token));
        }
        while i < n
            invariant
                i <= n,
                n == self.links@.len(),
                ls == self.links_spec(),
                links_view(kept@) + remove_link_by_token(ls.skip(i as int), token)
                    == remove_link_by_token(ls, token),
            decreases n - i,
        {
            let ghost pre = links_view(kept@);
            proof {
                assert(ls.skip(i as int)[0] == ls[i as int]);
                assert(ls[i as int] == self.links@[i as int]@);
                assert(ls.skip(i as int).skip(1) =~= ls.skip(i as int + 1));
            }
            if self.links[i].token != token {
                kept.push(
                    PeerLink { peer_id: self.links[i].peer_id.clone(), token: self.links[i].token },
                );
                proof {
                    assert(links_view(kept@) =~= pre.push(ls[i as int]));
                    assert(pre.push(ls[i as int]) + remove_link_by_token(
                        ls.skip(i as int + 1),
                        token,
                    ) =~= pre + (seq![ls[i as int]] + remove_link_by_token(
                        ls.skip(i as int + 1),
                        token,
                    )));
                }
            }
            i = i + 1;
        }
        proof {
            assert(ls.skip(n as int) =~= Seq::<PeerLinkView>::empty());
            assert(links_view(kept@) =~= remove_link_by_token(ls, token));
        }
        self.links = kept;
    }

    /// Sends the heartbeat when connected and its interval has elapsed.
    pub fn check_and_send_heartbeat(&mut self, now: u64) -> (r: Option<Message>)
        requires
            old(self).wf(),
        ensures
            final(self).wf(),
            ({
                let due = old(self).connected_spec() && crate::server::heartbeat_due(
                    old(self).last_heartbeat_spec(),
                    now,
                );
                match r {
                    Some(m) => due && m@ == client_heartbeat_view(
                        old(self).user_id_spec(),
                        old(self).listen_port_spec(),
                        now,
                    ) && final(self).last_heartbeat_spec() == now,
                    None => !due && final(self).last_heartbeat_spec() == old(self).last_heartbeat_spec(),
                }
            }),
            final(self).links_spec() == old(self).links_spec(),
            final(self).peers_spec() == old(self).peers_spec(),
            final(self).next_peer_token_spec() == old(self).next_peer_token_spec(),
            final(self).connected_spec() == old(self).connected_spec(),
            final(self).user_id_spec() == old(self).user_id_spec(),
            final(self).listen_port_spec() == old(self).listen_port_spec(),
    {
        if self.connected && now >= self.last_heartbeat && now - self.last_heartbeat
            > CLIENT_HEARTBEAT_INTERVAL_MS {
            let m = Message {
                msg_type: MessageType::Heartbeat,
                sender_id: self.user_id.clone(),
                target_id: None,
                content: None,
                sender_peer_address: "127.0.0.1".to_owned(),
                sender_listen_port: self.listen_port,
                timestamp: now,
                source: MessageSource::Server,
            };
            self.last_heartbeat = now;
            Some(m)
        } else {
            None
        }
    }

    /// Replaces what is known about one peer; the own id is skipped.
    fn upsert_known_peer(&mut self, p: PeerInfo)
        requires
            old(self).wf(),
            p@.last_heartbeat == 0,
        ensures
            final(self).wf(),
            final(self).peers_spec() == upsert_one(
                old(self).peers_spec(),
                (p@.user_id, p@.address, p@.port),
                old(self).user_id_spec(),
            ),
            final(self).links_spec() == old(self).links_spec(),
            final(self).next_peer_token_spec() == old(self).next_peer_token_spec(),
            old(self).same_identity(final(self)),
    {
        proof {
            lemma_upsert_one_wf(
                self.peers_spec(),
                (p@.user_id, p@.address, p@.port),
                self.user_id_spec(),
            );
        }
        if p.user_id.eq(&self.user_id) {
            return ;
        }
        let ghost ps = self.peers_spec();
        let ghost own = self.user_id_spec();
        let mut kept: Vec<PeerInfo> = Vec::new();
        let n = self.known_peers.len();
        let mut i: usize = 0;
        proof {
            assert(ps.skip(0) =~= ps);
            assert(peers_view(kept@) =~= Seq::<PeerInfoView>::empty());
            assert(peers_view(kept@) + remove_peer_spec(ps.skip(0), p@.user_id)
                =~= remove_peer_spec(ps, p@.user_id));
        }
        while i < n
            invariant
                i <= n,
                n == self.known_peers@.len(),
                ps == self.peers_spec(),
                peers_view(kept@) + remove_peer_spec(ps.skip(i as int), p@.user_id)
                    == remove_peer_spec(ps, p@.user_id),
            decreases n - i,
        {
            let ghost pre = peers_view(kept@);
            proof {
                assert(ps.skip(i as int)[0] == ps[i as int]);
                assert(ps[i as int] == self.known_peers@[i as int]@);
                assert(ps.skip(i as int).skip(1) =~= ps.skip(i as int + 1));
            }
            if !self.known_peers[i].user_id.eq(&p.user_id) {
                kept.push(self.known_peers[i].duplicate());
                proof {
                    assert(peers_view(kept@) =~= pre.push(ps[i as int]));
                    assert(pre.push(ps[i as int]) + remove_peer_spec(
                        ps.skip(i as int + 1),
                        p@.user_id,
                    ) =~= pre + (seq![ps[i as int]] + remove_peer_spec(
                        ps.skip(i as int + 1),
                        p@.user_id,
                    )));
                }
            }
            i = i + 1;
        }
        proof {
            assert(ps.skip(n as int) =~= Seq::<PeerInfoView>::empty());
            assert(peers_view(kept@) =~= remove_peer_spec(ps, p@.user_id));
        }
        let ghost pv = p@;
        kept.push(p);
        self.known_peers = kept;
        proof {
            assert(self.peers_spec() =~= remove_peer_spec(ps, pv.user_id).push(
                PeerInfoView {
                    user_id: pv.user_id,
                    address: pv.address,
                    port: pv.port,
                    last_heartbeat: 0,
                },
            ));
        }
    }

    /// Forgets one known peer; links are untouched.
    fn remove_known_peer(&mut self, u: &String)
        requires
            old(self).wf(),
        ensures
            final(self).wf(),
            final(self).peers_spec() == remove_peer_spec(old(self).peers_spec(), u@),
            final(self).links_spec() == old(self).links_spec(),
            final(self).next_peer_token_spec() == old(self).next_peer_token_spec(),
            old(self).same_identity(final(self)),
    {
        proof {
            lemma_remove_peer_spec_props(self.peers_spec(), u@, self.user_id_spec());
        }
        let ghost ps = self.peers_spec();
        let mut kept: Vec<PeerInfo> = Vec::new();
        let n = self.known_peers.len();
        let mut i: usize = 0;
        proof {
            assert(ps.skip(0) =~= ps);
            assert(peers_view(kept@) =~= Seq::<PeerInfoView>::empty());
            assert(peers_view(kept@) + remove_peer_spec(ps.skip(0), u@) =~= remove_peer_spec(
                ps,
                u@,
            ));
        }
        while i < n
            invariant
                i <= n,
                n == self.known_peers@.len(),
                ps == self.peers_spec(),
                peers_view(kept@) + remove_peer_spec(ps.skip(i as int), u@) == remove_peer_spec(
                    ps,
                    u@,
                ),
            decreases n - i,
        {
            let ghost pre = peers_view(kept@);
            proof {
                assert(ps.skip(i as int)[0] == ps[i as int]);
                assert(ps[i as int] == self.known_peers@[i as int]@);
                assert(ps.skip(i as int).skip(1) =~= ps.skip(i as int + 1));
            }
            if !self.known_peers[i].user_id.eq(u) {
                kept.push(self.known_peers[i].duplicate());
                proof {
                    assert(peers_view(kept@) =~= pre.push(ps[i as int]));
                    assert(pre.push(ps[i as int]) + remove_peer_spec(ps.skip(i as int + 1), u@)
                        =~= pre + (seq![ps[i as int]] + remove_peer_spec(
                        ps.skip(i as int + 1),
                        u@,
                    )));
                }
            }
            i = i + 1;
        }
        proof {
            assert(ps.skip(n as int) =~= Seq::<PeerInfoView>::empty());
            assert(peers_view(kept@) =~= remove_peer_spec(ps, u@));
        }
        self.known_peers = kept;
    }

    /// Tears down the direct link to one peer, if any.
    fn drop_link_of_user(&mut self, u: &String)
        requires
            old(self).wf(),
        ensures
            final(self).wf(),
            final(self).links_spec() == remove_link_by_user(old(self).links_spec(), u@),
            final(self).peers_spec() == old(self).peers_spec(),
            final(self).next_peer_token_spec() == old(self).next_peer_token_spec(),
            old(self).same_identity(final(self)),
    {
        proof {
            lemma_remove_link_by_user_props(self.links_spec(), u@, self.next_peer_token_spec());
        }
        let ghost ls = self.links_spec();
        let mut kept: Vec<PeerLink> = Vec::new();
        let n = self.links.len();
        let mut i: usize = 0;
        proof {
            assert(ls.skip(0) =~= ls);
            assert(links_view(kept@) =~= Seq::<PeerLinkView>::empty());
            assert(links_view(kept@) + remove_link_by_user(ls.skip(0), u@) =~= remove_link_by_user(
                ls,
                u@,
            ));
        }
        while i < n
            invariant
                i <= n,
                n == self.links@.len(),
                ls == self.links_spec(),
                links_view(kept@) + remove_link_by_user(ls.skip(i as int), u@)
                    == remove_link_by_user(ls, u@),
            decreases n - i,
        {
            let ghost pre = links_view(kept@);
            proof {
                assert(ls.skip(i as int)[0] == ls[i as int]);
                assert(ls[i as int] == self.links@[i as int]@);
                assert(ls.skip(i as int).skip(1) =~= ls.skip(i as int + 1));
            }
            if !self.links[i].peer_id.eq(u) {
                kept.push(
                    PeerLink { peer_id: self.links[i].peer_id.clone(), token: self.links[i].token },
                );
                proof {
                    assert(links_view(kept@) =~= pre.push(ls[i as int]));
                    assert(pre.push(ls[i as int]) + remove_link_by_user(ls.skip(i as int + 1), u@)
                        =~= pre + (seq![ls[i as int]] + remove_link_by_user(
                        ls.skip(i as int + 1),
                        u@,
                    )));
                }
            }
            i = i + 1;
        }
        proof {
            assert(ls.skip(n as int) =~= Seq::<PeerLinkView>::empty());
            assert(links_view(kept@) =~= remove_link_by_user(ls, u@));
        }
        self.links = kept;
    }

    /// Handles one decoded inbound message. A chat is handed up for
    /// display; a peer list is merged into the known peers, skipping the
    /// own id; a user-left notice forgets the peer and tears down any
    /// direct link to it; a connect response records the target's endpoint
    /// and asks the caller to dial it. Everything else is ignored.
    pub fn handle_message(&mut self, message: &Message, now: u64) -> (r: Vec<ClientAction>)
        requires
            old(self).wf(),
        ensures
            final(self).wf(),
            final(self).user_id_spec() == old(self).user_id_spec(),
            final(self).listen_port_spec() == old(self).listen_port_spec(),
            final(self).connected_spec() == old(self).connected_spec(),
            final(self).next_peer_token_spec() == old(self).next_peer_token_spec(),
            final(self).last_heartbeat_spec() == old(self).last_heartbeat_spec(),
            message@.msg_type == MessageType::Chat ==> *final(self) == *old(self) && actions_view(
                r@,
            ) == (if message@.content is Some {
                seq![ClientActionView::Deliver(message@)]
            } else {
                Seq::<ClientActionView>::empty()
            }),
            message@.msg_type == MessageType::PeerList ==> final(self).links_spec() == old(self).links_spec() && actions_view(r@) == Seq::<ClientActionView>::empty() && final(self).peers_spec() == (match message@.content {
                Some(c) => match decode_peer_list_bytes(encode_utf8(c)) {
                    Some(es) => merge_peers(
                        old(self).peers_spec(),
                        es,
                        old(self).user_id_spec(),
                    ),
                    None => old(self).peers_spec(),
                },
                None => old(self).peers_spec(),
            }),
            message@.msg_type == MessageType::UserLeft ==> final(self).peers_spec()
                == remove_peer_spec(old(self).peers_spec(), left_user(message@)) && final(self).links_spec() == remove_link_by_user(old(self).links_spec(), left_user(message@))
                && actions_view(r@) == (match find_link(
                old(self).links_spec(),
                left_user(message@),
            ) {
                Some(l) => seq![ClientActionView::DropLink(l.token)],
                None => Seq::<ClientActionView>::empty(),
            }),
            message@.msg_type == MessageType::ConnectResponse ==> final(self).links_spec() == old(self).links_spec() && (match message@.content {
                Some(c) => match parse_host_port(encode_utf8(c)) {
                    Some(hp) => if message@.sender_id != old(self).user_id_spec() {
                        final(self).peers_spec() == upsert_one(
                            old(self).peers_spec(),
                            (message@.sender_id, hp.0, hp.1),
                            old(self).user_id_spec(),
                        ) && actions_view(r@) == seq![
                            ClientActionView::Dial {
                                peer_id: message@.sender_id,
                                address: hp.0,
                                port: hp.1,
                            },
                        ]
                    } else {
                        *final(self) == *old(self) && actions_view(r@)
                            == Seq::<ClientActionView>::empty()
                    },
                    None => *final(self) == *old(self) && actions_view(r@)
                        == Seq::<ClientActionView>::empty(),
                },
                None => *final(self) == *old(self) && actions_view(r@)
                    == Seq::<ClientActionView>::empty(),
            }),
            message@.msg_type != MessageType::Chat && message@.msg_type != MessageType::PeerList
                && message@.msg_type != MessageType::UserLeft && message@.msg_type
                != MessageType::ConnectResponse ==> *final(self) == *old(self) && actions_view(r@)
                == Seq::<ClientActionView>::empty(),
    {
        let mut actions: Vec<ClientAction> = Vec::new();
        proof {
            assert(actions_view(actions@) =~= Seq::<ClientActionView>::empty());
        }
        match message.msg_type {
            MessageType::Chat => {
                match &message.content {
                    Some(_) => {
                        actions.push(ClientAction::Deliver(message.duplicate()));
                        proof {
                            assert(actions_view(actions@) =~= seq![
                                ClientActionView::Deliver(message@),
                            ]);
                        }
                    },
                    None => {},
                }
            },
            MessageType::PeerList => {
                match &message.content {
                    Some(c) => {
                        match decode_peer_list(c.as_str()) {
                            Some(decoded) => {
                                let ghost es = crate::peerlist::peer_infos_view(decoded@);
                                let ghost ps0 = self.peers_spec();
                                let ghost own = self.user_id_spec();
                                let n = decoded.len();
                                let mut i: usize = 0;
                                proof {
                                    assert(es.skip(0) =~= es);
                                }
                                while i < n
                                    invariant
                                        i <= n,
                                        n == decoded@.len(),
                                        es == crate::peerlist::peer_infos_view(decoded@),
                                        forall|k: int|
                                            0 <= k < decoded@.len() ==> #[trigger] decoded@[k].last_heartbeat == 0,
                                        self.wf(),
                                        own == self.user_id_spec(),
                                        merge_peers(self.peers_spec(), es.skip(i as int), own)
                                            == merge_peers(ps0, es, own),
                                        self.links_spec() == old(self).links_spec(),
                                        self.next_peer_token_spec() == old(self).next_peer_token_spec(),
                                        old(self).same_identity(self),
                                    decreases n - i,
                                {
                                    let ghost rest = es.skip(i as int);
                                    proof {
                                        assert(rest[0] == es[i as int]);
                                        assert(es[i as int] == (
                                            decoded@[i as int].user_id@,
                                            decoded@[i as int].address@,
                                            decoded@[i as int].port,
                                        ));
                                        assert(rest.skip(1) =~= es.skip(i as int + 1));
                                    }
                                    self.upsert_known_peer(decoded[i].duplicate());
                                    i = i + 1;
                                }
                                proof {
                                    assert(es.skip(n as int)
                                        =~= Seq::<(Seq<char>, Seq<char>, u16)>::empty());
                                }
                            },
                            None => {},
                        }
                    },
                    None => {},
                }
            },
            MessageType::UserLeft => {
                let ghost u = left_user(message@);
                match &message.content {
                    Some(c) => {
                        match self.find_peer_token(c) {
                            Some(t) => {
                                actions.push(ClientAction::DropLink(t));
                                proof {
                                    assert(actions_view(actions@) =~= seq![
                                        ClientActionView::DropLink(t),
                                    ]);
                                }
                            },
                            None => {},
                        }
                        self.drop_link_of_user(c);
                        self.remove_known_peer(c);
                    },
                    None => {
                        let who = message.sender_id.clone();
                        match self.find_peer_token(&who) {
                            Some(t) => {
                                actions.push(ClientAction::DropLink(t));
                                proof {
                                    assert(actions_view(actions@) =~= seq![
                                        ClientActionView::DropLink(t),
                                    ]);
                                }
                            },
                            None => {},
                        }
                        self.drop_link_of_user(&who);
                        self.remove_known_peer(&who);
                    },
                }
            },
            MessageType::ConnectResponse => {
                match &message.content {
                    Some(c) => {
                        match parse_host_port_content(c.as_str()) {
                            Some((address, port)) => {
                                if !message.sender_id.eq(&self.user_id) {
                                    let p = PeerInfo {
                                        user_id: message.sender_id.clone(),
                                        address: address.clone(),
                                        port,
                                        last_heartbeat: 0,
                                    };
                                    self.upsert_known_peer(p);
                                    actions.push(
                                        ClientAction::Dial {
                                            peer_id: message.sender_id.clone(),
                                            address,
                                            port,
                                        },
                                    );
                                    proof {
                                        assert(actions_view(actions@) =~= seq![
                                            ClientActionView::Dial {
                                                peer_id: message@.sender_id,
                                                address: address@,
                                                port,
                                            },
                                        ]);
                                    }
                                }
                            },
                            None => {},
                        }
                    },
                    None => {},
                }
            },
            _ => {},
        }
        actions
    }

    /// A copy of the known peers, for listings and status.
    pub fn known_peers_snapshot(&self) -> (r: Vec<PeerInfo>)
        ensures
            peers_view(r@) == self.peers_spec(),
    {
        let mut out: Vec<PeerInfo> = Vec::new();
        let n = self.known_peers.len();
        let mut i: usize = 0;
        while i < n
            invariant
                i <= n,
                n == self.known_peers@.len(),
                peers_view(out@) == self.peers_spec().take(i as int),
            decreases n - i,
        {
            out.push(self.known_peers[i].duplicate());
            proof {
                assert(peers_view(out@) =~= self.peers_spec().take(i as int).push(
                    self.peers_spec()[i as int],
                ));
                assert(self.peers_spec().take(i as int + 1) =~= self.peers_spec().take(
                    i as int,
                ).push(self.peers_spec()[i as int]));
                assert(self.peers_spec()[i as int] == self.known_peers@[i as int]@);
            }
            i = i + 1;
        }
        proof {
            assert(self.peers_spec().take(n as int) =~= self.peers_spec());
        }
        out
    }

    /// How many direct links stand.
    pub fn link_count(&self) -> (r: usize)
        ensures
            r == self.links_spec().len(),
    {
        self.links.len()
    }
}

} // verus!
