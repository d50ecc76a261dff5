//! The wire form of a `Message`: one JSON object with a fixed key order,
//! matching the field order of the struct. `encode_frame_body` gives the
//! bytes of the object (without the trailing newline delimiter);
//! `decode_frame` is the exact meaning of the parser. The completeness
//! lemma at the bottom proves the round trip.

use vstd::prelude::*;
use vstd::utf8::*;

verus! {

use crate::messages::{MessageType, MessageSource, MessageView};
use crate::escape::{escape_bytes, parse_string_body, QUOTE};
use crate::escape::lemma_escape_bytes_no_control;
use crate::escape::lemma_parse_string_body_complete;
use crate::decimal::{dec_digits, parse_dec, is_digit};
use crate::decimal::{lemma_dec_digits_are_digits, lemma_parse_dec_complete};

pub open spec fn lit_obj_head() -> Seq<u8> {
    seq![0x7bu8, 0x22u8, 0x6du8, 0x73u8, 0x67u8, 0x5fu8, 0x74u8, 0x79u8, 0x70u8, 0x65u8, 0x22u8, 0x3au8]
}

pub open spec fn lit_sender_key() -> Seq<u8> {
    seq![0x2cu8, 0x22u8, 0x73u8, 0x65u8, 0x6eu8, 0x64u8, 0x65u8, 0x72u8, 0x5fu8, 0x69u8, 0x64u8, 0x22u8, 0x3au8]
}

pub open spec fn lit_target_key() -> Seq<u8> {
    seq![0x2cu8, 0x22u8, 0x74u8, 0x61u8, 0x72u8, 0x67u8, 0x65u8, 0x74u8, 0x5fu8, 0x69u8, 0x64u8, 0x22u8, 0x3au8]
}

pub open spec fn lit_content_key() -> Seq<u8> {
    seq![0x2cu8, 0x22u8, 0x63u8, 0x6fu8, 0x6eu8, 0x74u8, 0x65u8, 0x6eu8, 0x74u8, 0x22u8, 0x3au8]
}

pub open spec fn lit_addr_key() -> Seq<u8> {
    seq![0x2cu8, 0x22u8, 0x73u8, 0x65u8, 0x6eu8, 0x64u8, 0x65u8, 0x72u8, 0x5fu8, 0x70u8, 0x65u8, 0x65u8, 0x72u8, 0x5fu8, 0x61u8, 0x64u8, 0x64u8, 0x72u8, 0x65u8, 0x73u8, 0x73u8, 0x22u8, 0x3au8]
}

pub open spec fn lit_port_key() -> Seq<u8> {
    seq![0x2cu8, 0x22u8, 0x73u8, 0x65u8, 0x6eu8, 0x64u8, 0x65u8, 0x72u8, 0x5fu8, 0x6cu8, 0x69u8, 0x73u8, 0x74u8, 0x65u8, 0x6eu8, 0x5fu8, 0x70u8, 0x6fu8, 0x72u8, 0x74u8, 0x22u8, 0x3au8]
}

pub open spec fn lit_ts_key() -> Seq<u8> {
    seq![0x2cu8, 0x22u8, 0x74u8, 0x69u8, 0x6du8, 0x65u8, 0x73u8, 0x74u8, 0x61u8, 0x6du8, 0x70u8, 0x22u8, 0x3au8]
}

pub open spec fn lit_source_key() -> Seq<u8> {
    seq![0x2cu8, 0x22u8, 0x73u8, 0x6fu8, 0x75u8, 0x72u8, 0x63u8, 0x65u8, 0x22u8, 0x3au8]
}

pub open spec fn lit_obj_close() -> Seq<u8> {
    seq![0x7du8]
}

pub open spec fn lit_null() -> Seq<u8> {
    seq![0x6eu8, 0x75u8, 0x6cu8, 0x6cu8]
}

pub open spec fn type_name_bytes(t: MessageType) -> Seq<u8> {
    match t {
        MessageType::Join => seq![0x4au8, 0x6fu8, 0x69u8, 0x6eu8],
        MessageType::Chat => seq![0x43u8, 0x68u8, 0x61u8, 0x74u8],
        MessageType::Leave => seq![0x4cu8, 0x65u8, 0x61u8, 0x76u8, 0x65u8],
        MessageType::PeerList => seq![0x50u8, 0x65u8, 0x65u8, 0x72u8, 0x4cu8, 0x69u8, 0x73u8, 0x74u8],
        MessageType::PeerListRequest => seq![0x50u8, 0x65u8, 0x65u8, 0x72u8, 0x4cu8, 0x69u8, 0x73u8, 0x74u8, 0x52u8, 0x65u8, 0x71u8, 0x75u8, 0x65u8, 0x73u8, 0x74u8],
        MessageType::ConnectRequest => seq![0x43u8, 0x6fu8, 0x6eu8, 0x6eu8, 0x65u8, 0x63u8, 0x74u8, 0x52u8, 0x65u8, 0x71u8, 0x75u8, 0x65u8, 0x73u8, 0x74u8],
        MessageType::ConnectResponse => seq![0x43u8, 0x6fu8, 0x6eu8, 0x6eu8, 0x65u8, 0x63u8, 0x74u8, 0x52u8, 0x65u8, 0x73u8, 0x70u8, 0x6fu8, 0x6eu8, 0x73u8, 0x65u8],
        MessageType::Heartbeat => seq![0x48u8, 0x65u8, 0x61u8, 0x72u8, 0x74u8, 0x62u8, 0x65u8, 0x61u8, 0x74u8],
        MessageType::UserJoined => seq![0x55u8, 0x73u8, 0x65u8, 0x72u8, 0x4au8, 0x6fu8, 0x69u8, 0x6eu8, 0x65u8, 0x64u8],
        MessageType::UserLeft => seq![0x55u8, 0x73u8, 0x65u8, 0x72u8, 0x4cu8, 0x65u8, 0x66u8, 0x74u8],
    }
}

pub open spec fn type_of_name(s: Seq<u8>) -> Option<MessageType> {
    if s == type_name_bytes(MessageType::Join) {
        Some(MessageType::Join)
    } else if s == type_name_bytes(MessageType::Chat) {
        Some(MessageType::Chat)
    } else if s == type_name_bytes(MessageType::Leave) {
        Some(MessageType::Leave)
    } else if s == type_name_bytes(MessageType::PeerList) {
        Some(MessageType::PeerList)
    } else if s == type_name_bytes(MessageType::PeerListRequest) {
        Some(MessageType::PeerListRequest)
    } else if s == type_name_bytes(MessageType::ConnectRequest) {
        Some(MessageType::ConnectRequest)
    } else if s == type_name_bytes(MessageType::ConnectResponse) {
        Some(MessageType::ConnectResponse)
    } else if s == type_name_bytes(MessageType::Heartbeat) {
        Some(MessageType::Heartbeat)
    } else if s == type_name_bytes(MessageType::UserJoined) {
        Some(MessageType::UserJoined)
    } else if s == type_name_bytes(MessageType::UserLeft) {
        Some(MessageType::UserLeft)
    } else {
        None
    }
}

pub open spec fn source_name_bytes(s: MessageSource) -> Seq<u8> {
    match s {
        MessageSource::Server => seq![0x53u8, 0x65u8, 0x72u8, 0x76u8, 0x65u8, 0x72u8],
        MessageSource::Peer => seq![0x50u8, 0x65u8, 0x65u8, 0x72u8],
    }
}

pub open spec fn source_of_name(s: Seq<u8>) -> Option<MessageSource> {
    if s == source_name_bytes(MessageSource::Server) {
        Some(MessageSource::Server)
    } else if s == source_name_bytes(MessageSource::Peer) {
        Some(MessageSource::Peer)
    } else {
        None
    }
}

/// A quoted JSON string holding the given (unescaped) content bytes.
pub open spec fn json_string(content: Seq<u8>) -> Seq<u8> {
    seq![QUOTE] + escape_bytes(content) + seq![QUOTE]
}

/// An optional string field: `null`, or a quoted string of the UTF-8 bytes.
pub open spec fn json_opt_string(s: Option<Seq<char>>) -> Seq<u8> {
    match s {
        None => lit_null(),
        Some(t) => json_string(encode_utf8(t)),
    }
}

/// The frame body: the serialized object, without the newline delimiter.
pub open spec fn encode_frame_body(m: MessageView) -> Seq<u8> {
    lit_obj_head() + json_string(type_name_bytes(m.msg_type)) + lit_sender_key() + json_string(
        encode_utf8(m.sender_id),
    ) + lit_target_key() + json_opt_string(m.target_id) + lit_content_key() + json_opt_string(
        m.content,
    ) + lit_addr_key() + json_string(encode_utf8(m.sender_peer_address)) + lit_port_key()
        + dec_digits(m.sender_listen_port as nat) + lit_ts_key() + dec_digits(m.timestamp as nat)
        + lit_source_key() + json_string(source_name_bytes(m.source)) + lit_obj_close()
}

/// An exact literal at the front of `s`; the remainder on a match.
pub open spec fn parse_lit(s: Seq<u8>, lit: Seq<u8>) -> Option<Seq<u8>> {
    if lit.len() <= s.len() && s.take(lit.len() as int) == lit {
        Some(s.skip(lit.len() as int))
    } else {
        None
    }
}

/// A quoted string at the front of `s`: the unescaped content bytes and the
/// remainder past the closing quote.
pub open spec fn parse_json_string(s: Seq<u8>) -> Option<(Seq<u8>, Seq<u8>)> {
    if s.len() >= 1 && s[0] == QUOTE {
        parse_string_body(s.skip(1))
    } else {
        None
    }
}

/// `null` or a quoted string at the front of `s`.
pub open spec fn parse_json_opt_string(s: Seq<u8>) -> Option<(Option<Seq<u8>>, Seq<u8>)> {
    if s.len() >= 1 && s[0] == 0x6e {
        match parse_lit(s, lit_null()) {
            Some(r) => Some((None, r)),
            None => None,
        }
    } else {
        match parse_json_string(s) {
            Some(p) => Some((Some(p.0), p.1)),
            None => None,
        }
    }
}

pub open spec fn opt_bytes_valid_utf8(o: Option<Seq<u8>>) -> bool {
    match o {
        None => true,
        Some(b) => valid_utf8(b),
    }
}

pub open spec fn opt_bytes_decode(o: Option<Seq<u8>>) -> Option<Seq<char>> {
    match o {
        None => None,
        Some(b) => Some(decode_utf8(b)),
    }
}

/// The exact meaning of the frame parser: `Some(m)` when `s` is a frame
/// body for `m` (field for field, in the fixed key order, fully consumed),
/// `None` otherwise.
pub open spec fn decode_frame(s: Seq<u8>) -> Option<MessageView> {
    match parse_lit(s, lit_obj_head()) {
        None => None,
        Some(s1) => match parse_json_string(s1) {
            None => None,
            Some((tname, s2)) => match type_of_name(tname) {
                None => None,
                Some(msg_type) => match parse_lit(s2, lit_sender_key()) {
                    None => None,
                    Some(s3) => match parse_json_string(s3) {
                        None => None,
                        Some((sender, s4)) => if !valid_utf8(sender) {
                            None
                        } else {
                            match parse_lit(s4, lit_target_key()) {
                                None => None,
                                Some(s5) => match parse_json_opt_string(s5) {
                                    None => None,
                                    Some((target, s6)) => if !opt_bytes_valid_utf8(target) {
                                        None
                                    } else {
                                        match parse_lit(s6, lit_content_key()) {
                                            None => None,
                                            Some(s7) => match parse_json_opt_string(s7) {
                                                None => None,
                                                Some((content, s8)) => if !opt_bytes_valid_utf8(
                                                    content,
                                                ) {
                                                    None
                                                } else {
                                                    decode_frame_tail(
                                                        s8,
                                                        msg_type,
                                                        decode_utf8(sender),
                                                        opt_bytes_decode(target),
                                                        opt_bytes_decode(content),
                                                    )
                                                },
                                            },
                                        }
                                    },
                                },
                            }
                        },
                    },
                },
            },
        },
    }
}

/// The second half of the frame: address, port, timestamp, source.
pub open spec fn decode_frame_tail(
    s8: Seq<u8>,
    msg_type: MessageType,
    sender_id: Seq<char>,
    target_id: Option<Seq<char>>,
    content: Option<Seq<char>>,
) -> Option<MessageView> {
    match parse_lit(s8, lit_addr_key()) {
        None => None,
        Some(s9) => match parse_json_string(s9) {
            None => None,
            Some((addr, s10)) => if !valid_utf8(addr) {
                None
            } else {
                match parse_lit(s10, lit_port_key()) {
                    None => None,
                    Some(s11) => match parse_dec(s11) {
                        None => None,
                        Some((port, s12)) => if port > 0xffff {
                            None
                        } else {
                            match parse_lit(s12, lit_ts_key()) {
                                None => None,
                                Some(s13) => match parse_dec(s13) {
                                    None => None,
                                    Some((ts, s14)) => match parse_lit(s14, lit_source_key()) {
                                        None => None,
                                        Some(s15) => match parse_json_string(s15) {
                                            None => None,
                                            Some((sname, s16)) => match source_of_name(sname) {
                                                None => None,
                                                Some(source) => match parse_lit(
                                                    s16,
                                                    lit_obj_close(),
                                                ) {
                                                    None => None,
                                                    Some(s17) => if s17.len() == 0 {
                                                        Some(
                                                            MessageView {
                                                                msg_type,
                                                                sender_id,
                                                                target_id,
                                                                content,
                                                                sender_peer_address: decode_utf8(
                                                                    addr,
                                                                ),
                                                                sender_listen_port: port as u16,
                                                                timestamp: ts,
                                                                source,
                                                            },
                                                        )
                                                    } else {
                                                        None
                                                    },
                                                },
                                            },
                                        },
                                    },
                                },
                            }
                        },
                    },
                }
            },
        },
    }
}

pub proof fn lemma_parse_lit_complete(lit: Seq<u8>, rest: Seq<u8>)
    ensures
        parse_lit(lit + rest, lit) == Some(rest),
{
    assert((lit + rest).take(lit.len() as int) =~= lit);
    assert((lit + rest).skip(lit.len() as int) =~= rest);
}

pub proof fn lemma_parse_json_string_complete(x: Seq<u8>, rest: Seq<u8>)
    ensures
        parse_json_string(json_string(x) + rest) == Some((x, rest)),
{
    let s = json_string(x) + rest;
    assert(s[0] == QUOTE);
    assert(s.skip(1) =~= escape_bytes(x) + seq![QUOTE] + rest);
    lemma_parse_string_body_complete(x, rest);
}

pub proof fn lemma_parse_json_opt_string_complete(o: Option<Seq<char>>, rest: Seq<u8>)
    ensures
        parse_json_opt_string(json_opt_string(o) + rest) == Some(
            (
                match o {
                    None => None::<Seq<u8>>,
                    Some(t) => Some(encode_utf8(t)),
                },
                rest,
            ),
        ),
{
    let s = json_opt_string(o) + rest;
    match o {
        None => {
            assert(s[0] == 0x6e);
            lemma_parse_lit_complete(lit_null(), rest);
        },
        Some(t) => {
            assert(s[0] == QUOTE);
            assert(s[0] != 0x6e);
            lemma_parse_json_string_complete(encode_utf8(t), rest);
        },
    }
}

pub proof fn lemma_type_of_name_complete(t: MessageType)
    ensures
        type_of_name(type_name_bytes(t)) == Some(t),
{
    match t {
        MessageType::Join => {
            // nothing earlier in the chain to distinguish
        },
        MessageType::Chat => {
            assert(type_name_bytes(MessageType::Chat)[0] == 0x43);
            assert(type_name_bytes(MessageType::Join)[0] == 0x4a);
        },
        MessageType::Leave => {
            assert(type_name_bytes(MessageType::Leave).len() == 5);
            assert(type_name_bytes(MessageType::Join).len() == 4);
            assert(type_name_bytes(MessageType::Leave).len() == 5);
            assert(type_name_bytes(MessageType::Chat).len() == 4);
        },
        MessageType::PeerList => {
            assert(type_name_bytes(MessageType::PeerList).len() == 8);
            assert(type_name_bytes(MessageType::Join).len() == 4);
            assert(type_name_bytes(MessageType::PeerList).len() == 8);
            assert(type_name_bytes(MessageType::Chat).len() == 4);
            assert(type_name_bytes(MessageType::PeerList).len() == 8);
            assert(type_name_bytes(MessageType::Leave).len() == 5);
        },
        MessageType::PeerListRequest => {
            assert(type_name_bytes(MessageType::PeerListRequest).len() == 15);
            assert(type_name_bytes(MessageType::Join).len() == 4);
            assert(type_name_bytes(MessageType::PeerListRequest).len() == 15);
            assert(type_name_bytes(MessageType::Chat).len() == 4);
            assert(type_name_bytes(MessageType::PeerListRequest).len() == 15);
            assert(type_name_bytes(MessageType::Leave).len() == 5);
            assert(type_name_bytes(MessageType::PeerListRequest).len() == 15);
            assert(type_name_bytes(MessageType::PeerList).len() == 8);
        },
        MessageType::ConnectRequest => {
            assert(type_name_bytes(MessageType::ConnectRequest).len() == 14);
            assert(type_name_bytes(MessageType::Join).len() == 4);
            assert(type_name_bytes(MessageType::ConnectRequest).len() == 14);
            assert(type_name_bytes(MessageType::Chat).len() == 4);
            assert(type_name_bytes(MessageType::ConnectRequest).len() == 14);
            assert(type_name_bytes(MessageType::Leave).len() == 5);
            assert(type_name_bytes(MessageType::ConnectRequest).len() == 14);
            assert(type_name_bytes(MessageType::PeerList).len() == 8);
            assert(type_name_bytes(MessageType::ConnectRequest).len() == 14);
            assert(type_name_bytes(MessageType::PeerListRequest).len() == 15);
        },
        MessageType::ConnectResponse => {
            assert(type_name_bytes(MessageType::ConnectResponse).len() == 15);
            assert(type_name_bytes(MessageType::Join).len() == 4);
            assert(type_name_bytes(MessageType::ConnectResponse).len() == 15);
            assert(type_name_bytes(MessageType::Chat).len() == 4);
            assert(type_name_bytes(MessageType::ConnectResponse).len() == 15);
            assert(type_name_bytes(MessageType::Leave).len() == 5);
            assert(type_name_bytes(MessageType::ConnectResponse).len() == 15);
            assert(type_name_bytes(MessageType::PeerList).len() == 8);
            assert(type_name_bytes(MessageType::ConnectResponse)[0] == 0x43);
            assert(type_name_bytes(MessageType::PeerListRequest)[0] == 0x50);
            assert(type_name_bytes(MessageType::ConnectResponse).len() == 15);
            assert(type_name_bytes(MessageType::ConnectRequest).len() == 14);
        },
        MessageType::Heartbeat => {
            assert(type_name_bytes(MessageType::Heartbeat).len() == 9);
            assert(type_name_bytes(MessageType::Join).len() == 4);
            assert(type_name_bytes(MessageType::Heartbeat).len() == 9);
            assert(type_name_bytes(MessageType::Chat).len() == 4);
            assert(type_name_bytes(MessageType::Heartbeat).len() == 9);
            assert(type_name_bytes(MessageType::Leave).len() == 5);
            assert(type_name_bytes(MessageType::Heartbeat).len() == 9);
            assert(type_name_bytes(MessageType::PeerList).len() == 8);
            assert(type_name_bytes(MessageType::Heartbeat).len() == 9);
            assert(type_name_bytes(MessageType::PeerListRequest).len() == 15);
            assert(type_name_bytes(MessageType::Heartbeat).len() == 9);
            assert(type_name_bytes(MessageType::ConnectRequest).len() == 14);
            assert(type_name_bytes(MessageType::Heartbeat).len() == 9);
            assert(type_name_bytes(MessageType::ConnectResponse).len() == 15);
        },
        MessageType::UserJoined => {
            assert(type_name_bytes(MessageType::UserJoined).len() == 10);
            assert(type_name_bytes(MessageType::Join).len() == 4);
            assert(type_name_bytes(MessageType::UserJoined).len() == 10);
            assert(type_name_bytes(MessageType::Chat).len() == 4);
            assert(type_name_bytes(MessageType::UserJoined).len() == 10);
            assert(type_name_bytes(MessageType::Leave).len() == 5);
            assert(type_name_bytes(MessageType::UserJoined).len() == 10);
            assert(type_name_bytes(MessageType::PeerList).len() == 8);
            assert(type_name_bytes(MessageType::UserJoined).len() == 10);
            assert(type_name_bytes(MessageType::PeerListRequest).len() == 15);
            assert(type_name_bytes(MessageType::UserJoined).len() == 10);
            assert(type_name_bytes(MessageType::ConnectRequest).len() == 14);
            assert(type_name_bytes(MessageType::UserJoined).len() == 10);
            assert(type_name_bytes(MessageType::ConnectResponse).len() == 15);
            assert(type_name_bytes(MessageType::UserJoined).len() == 10);
            assert(type_name_bytes(MessageType::Heartbeat).len() == 9);
        },
        MessageType::UserLeft => {
            assert(type_name_bytes(MessageType::UserLeft).len() == 8);
            assert(type_name_bytes(MessageType::Join).len() == 4);
            assert(type_name_bytes(MessageType::UserLeft).len() == 8);
            assert(type_name_bytes(MessageType::Chat).len() == 4);
            assert(type_name_bytes(MessageType::UserLeft).len() == 8);
            assert(type_name_bytes(MessageType::Leave).len() == 5);
            assert(type_name_bytes(MessageType::UserLeft)[0] == 0x55);
            assert(type_name_bytes(MessageType::PeerList)[0] == 0x50);
            assert(type_name_bytes(MessageType::UserLeft).len() == 8);
            assert(type_name_bytes(MessageType::PeerListRequest).len() == 15);
            assert(type_name_bytes(MessageType::UserLeft).len() == 8);
            assert(type_name_bytes(MessageType::ConnectRequest).len() == 14);
            assert(type_name_bytes(MessageType::UserLeft).len() == 8);
            assert(type_name_bytes(MessageType::ConnectResponse).len() == 15);
            assert(type_name_bytes(MessageType::UserLeft).len() == 8);
            assert(type_name_bytes(MessageType::Heartbeat).len() == 9);
            assert(type_name_bytes(MessageType::UserLeft).len() == 8);
            assert(type_name_bytes(MessageType::UserJoined).len() == 10);
        },
    }
}

pub proof fn lemma_source_of_name_complete(s: MessageSource)
    ensures
        source_of_name(source_name_bytes(s)) == Some(s),
{
    match s {
        MessageSource::Server => {
        },
        MessageSource::Peer => {
            assert(source_name_bytes(MessageSource::Peer).len() == 4);
            assert(source_name_bytes(MessageSource::Server).len() == 6);
        },
    }
}

/// Every byte of the frame body is at least 0x20 except the two digits
/// regions and literals, none of which contain the newline delimiter: a
/// frame body never contains 0x0a.
pub proof fn lemma_encode_frame_body_no_delimiter(m: MessageView)
    ensures
        forall|i: int|
            0 <= i < encode_frame_body(m).len() ==> #[trigger] encode_frame_body(m)[i] != 0x0a,
{
    let s = encode_frame_body(m);
    lemma_json_string_no_delimiter(type_name_bytes(m.msg_type));
    lemma_json_string_no_delimiter(encode_utf8(m.sender_id));
    lemma_json_opt_string_no_delimiter(m.target_id);
    lemma_json_opt_string_no_delimiter(m.content);
    lemma_json_string_no_delimiter(encode_utf8(m.sender_peer_address));
    lemma_json_string_no_delimiter(source_name_bytes(m.source));
    lemma_dec_digits_are_digits(m.sender_listen_port as nat);
    lemma_dec_digits_are_digits(m.timestamp as nat);
}

pub proof fn lemma_json_string_no_delimiter(x: Seq<u8>)
    ensures
        forall|i: int| 0 <= i < json_string(x).len() ==> #[trigger] json_string(x)[i] != 0x0a,
{
    lemma_escape_bytes_no_control(x);
}

pub proof fn lemma_json_opt_string_no_delimiter(o: Option<Seq<char>>)
    ensures
        forall|i: int|
            0 <= i < json_opt_string(o).len() ==> #[trigger] json_opt_string(o)[i] != 0x0a,
{
    match o {
        None => {},
        Some(t) => {
            lemma_json_string_no_delimiter(encode_utf8(t));
        },
    }
}

/// Rewrites the flat frame-body concatenation into the right-nested form
/// that the parser peels off piece by piece.
#[verifier::rlimit(100)]
#[verifier::spinoff_prover]
proof fn lemma_frame_body_assoc(m: MessageView)
    ensures
        encode_frame_body(m) == lit_obj_head() + (json_string(type_name_bytes(m.msg_type)) + (
        lit_sender_key() + (json_string(encode_utf8(m.sender_id)) + (lit_target_key() + (
        json_opt_string(m.target_id) + (lit_content_key() + (json_opt_string(m.content) + (
        lit_addr_key() + (json_string(encode_utf8(m.sender_peer_address)) + (lit_port_key() + (
        dec_digits(m.sender_listen_port as nat) + (lit_ts_key() + (dec_digits(m.timestamp as nat)
            + (lit_source_key() + (json_string(source_name_bytes(m.source))
            + lit_obj_close()))))))))))))))),
{
    let p01 = lit_obj_head();
    let p02 = json_string(type_name_bytes(m.msg_type));
    let p03 = lit_sender_key();
    let p04 = json_string(encode_utf8(m.sender_id));
    let p05 = lit_target_key();
    let p06 = json_opt_string(m.target_id);
    let p07 = lit_content_key();
    let p08 = json_opt_string(m.content);
    let p09 = lit_addr_key();
    let p10 = json_string(encode_utf8(m.sender_peer_address));
    let p11 = lit_port_key();
    let p12 = dec_digits(m.sender_listen_port as nat);
    let p13 = lit_ts_key();
    let p14 = dec_digits(m.timestamp as nat);
    let p15 = lit_source_key();
    let p16 = json_string(source_name_bytes(m.source));
    let p17 = lit_obj_close();
    let q02 = p01 + p02;
    let q03 = q02 + p03;
    let q04 = q03 + p04;
    let q05 = q04 + p05;
    let q06 = q05 + p06;
    let q07 = q06 + p07;
    let q08 = q07 + p08;
    let q09 = q08 + p09;
    let q10 = q09 + p10;
    let q11 = q10 + p11;
    let q12 = q11 + p12;
    let q13 = q12 + p13;
    let q14 = q13 + p14;
    let q15 = q14 + p15;
    let q16 = q15 + p16;
    let s16 = p16 + p17;
    let s15 = p15 + s16;
    let s14 = p14 + s15;
    let s13 = p13 + s14;
    let s12 = p12 + s13;
    let s11 = p11 + s12;
    let s10 = p10 + s11;
    let s9 = p09 + s10;
    let s8 = p08 + s9;
    let s7 = p07 + s8;
    let s6 = p06 + s7;
    let s5 = p05 + s6;
    let s4 = p04 + s5;
    let s3 = p03 + s4;
    let s2 = p02 + s3;
    assert(q16 + p17 =~= q15 + s16);
    assert(q15 + s16 =~= q14 + s15);
    assert(q14 + s15 =~= q13 + s14);
    assert(q13 + s14 =~= q12 + s13);
    assert(q12 + s13 =~= q11 + s12);
    assert(q11 + s12 =~= q10 + s11);
    assert(q10 + s11 =~= q09 + s10);
    assert(q09 + s10 =~= q08 + s9);
    assert(q08 + s9 =~= q07 + s8);
    assert(q07 + s8 =~= q06 + s7);
    assert(q06 + s7 =~= q05 + s6);
    assert(q05 + s6 =~= q04 + s5);
    assert(q04 + s5 =~= q03 + s4);
    assert(q03 + s4 =~= q02 + s3);
    assert(q02 + s3 =~= p01 + s2);
}

/// The round trip for the second half of the frame.
#[verifier::rlimit(60)]
proof fn lemma_decode_frame_tail_complete(m: MessageView)
    ensures
        decode_frame_tail(
            lit_addr_key() + (json_string(encode_utf8(m.sender_peer_address)) + (lit_port_key() + (
            dec_digits(m.sender_listen_port as nat) + (lit_ts_key() + (dec_digits(
                m.timestamp as nat,
            ) + (lit_source_key() + (json_string(source_name_bytes(m.source))
                + lit_obj_close()))))))),
            m.msg_type,
            m.sender_id,
            m.target_id,
            m.content,
        ) == Some(m),
{
    broadcast use encode_utf8_valid_utf8;
    broadcast use encode_utf8_decode_utf8;

    let p10 = json_string(encode_utf8(m.sender_peer_address));
    let p11 = lit_port_key();
    let p12 = dec_digits(m.sender_listen_port as nat);
    let p13 = lit_ts_key();
    let p14 = dec_digits(m.timestamp as nat);
    let p15 = lit_source_key();
    let p16 = json_string(source_name_bytes(m.source));
    let p17 = lit_obj_close();
    let s17 = Seq::<u8>::empty();
    let s16 = p17 + s17;
    let s15 = p16 + s16;
    let s14 = p15 + s15;
    let s13 = p14 + s14;
    let s12 = p13 + s13;
    let s11 = p12 + s12;
    let s10 = p11 + s11;
    let s9 = p10 + s10;
    let s8 = lit_addr_key() + s9;
    assert(s16 =~= p17);
    assert(s8 =~= lit_addr_key() + (p10 + (p11 + (p12 + (p13 + (p14 + (p15 + (p16 + p17))))))));
    lemma_parse_lit_complete(lit_addr_key(), s9);
    lemma_parse_json_string_complete(encode_utf8(m.sender_peer_address), s10);
    lemma_parse_lit_complete(p11, s11);
    lemma_dec_digits_are_digits(m.sender_listen_port as nat);
    lemma_dec_digits_are_digits(m.timestamp as nat);
    assert(s12[0] == p13[0]);
    assert(!is_digit(s12[0]));
    lemma_parse_dec_complete(m.sender_listen_port as u64, s12);
    lemma_parse_lit_complete(p13, s13);
    assert(s14[0] == p15[0]);
    assert(!is_digit(s14[0]));
    lemma_parse_dec_complete(m.timestamp, s14);
    lemma_parse_lit_complete(p15, s15);
    lemma_parse_json_string_complete(source_name_bytes(m.source), s16);
    lemma_source_of_name_complete(m.source);
    lemma_parse_lit_complete(p17, s17);
    assert(decode_frame_tail(s8, m.msg_type, m.sender_id, m.target_id, m.content) == Some(m));
}

/// The round trip at the heart of the codec: a frame body parses back to
/// exactly the message it was built from.
#[verifier::rlimit(60)]
#[verifier::spinoff_prover]
pub proof fn lemma_decode_frame_complete(m: MessageView)
    ensures
        decode_frame(encode_frame_body(m)) == Some(m),
{
    broadcast use encode_utf8_valid_utf8;
    broadcast use encode_utf8_decode_utf8;

    let p01 = lit_obj_head();
    let p02 = json_string(type_name_bytes(m.msg_type));
    let p03 = lit_sender_key();
    let p04 = json_string(encode_utf8(m.sender_id));
    let p05 = lit_target_key();
    let p06 = json_opt_string(m.target_id);
    let p07 = lit_content_key();
    let p08 = json_opt_string(m.content);
    let s8 = lit_addr_key() + (json_string(encode_utf8(m.sender_peer_address)) + (lit_port_key()
        + (dec_digits(m.sender_listen_port as nat) + (lit_ts_key() + (dec_digits(
        m.timestamp as nat,
    ) + (lit_source_key() + (json_string(source_name_bytes(m.source)) + lit_obj_close())))))));
    let s7 = p08 + s8;
    let s6 = p07 + s7;
    let s5 = p06 + s6;
    let s4 = p05 + s5;
    let s3 = p04 + s4;
    let s2 = p03 + s3;
    let s1 = p02 + s2;
    let s0 = p01 + s1;
    lemma_frame_body_assoc(m);
    assert(encode_frame_body(m) == s0);
    lemma_parse_lit_complete(p01, s1);
    lemma_parse_json_string_complete(type_name_bytes(m.msg_type), s2);
    lemma_type_of_name_complete(m.msg_type);
    lemma_parse_lit_complete(p03, s3);
    lemma_parse_json_string_complete(encode_utf8(m.sender_id), s4);
    lemma_parse_lit_complete(p05, s5);
    lemma_parse_json_opt_string_complete(m.target_id, s6);
    lemma_parse_lit_complete(p07, s7);
    lemma_parse_json_opt_string_complete(m.content, s8);
    let tb = match m.target_id {
        None => None::<Seq<u8>>,
        Some(t) => Some(encode_utf8(t)),
    };
    let cb = match m.content {
        None => None::<Seq<u8>>,
        Some(t) => Some(encode_utf8(t)),
    };
    assert(opt_bytes_valid_utf8(tb));
    assert(opt_bytes_valid_utf8(cb));
    assert(opt_bytes_decode(tb) == m.target_id);
    assert(opt_bytes_decode(cb) == m.content);
    lemma_decode_frame_tail_complete(m);
    assert(decode_frame(encode_frame_body(m)) == Some(m));
}

} // verus!
