//! The executable wire codec: `serialize_message` renders a `Message` as a
//! newline-delimited frame; `deserialize_message` parses one frame body.
//! Both are exact against the spec in `wire`: serialization always
//! succeeds and produces `encode_frame_body` plus the delimiter, and
//! deserialization returns `Ok` exactly when `decode_frame` accepts.

use vstd::prelude::*;
use vstd::utf8::*;

verus! {

use crate::messages::{Message, MessageType, MessageSource, P2PError, opt_string_view};
use crate::escape::{escape_into, parse_string_at, QUOTE};
use crate::decimal::{enc_u64, parse_u64_at};
use crate::utf8help::lemma_escape_bytes_plain;
use crate::wire::{
    lit_obj_head, lit_sender_key, lit_target_key, lit_content_key, lit_addr_key, lit_port_key,
    lit_ts_key, lit_source_key, lit_obj_close, lit_null, type_name_bytes, type_of_name,
    source_name_bytes, source_of_name, json_string, json_opt_string, encode_frame_body,
    parse_lit, parse_json_string, parse_json_opt_string, opt_bytes_valid_utf8, opt_bytes_decode,
    decode_frame, decode_frame_tail,
};

/// Appends a byte slice.
pub(crate) fn push_bytes(out: &mut Vec<u8>, s: &[u8])
    ensures
        final(out)@ == old(out)@ + s@,
{
    let len = s.len();
    let mut i: usize = 0;
    while i < len
        invariant
            i <= len,
            len == s@.len(),
            out@ == old(out)@ + s@.take(i as int),
        decreases len - i,
    {
        out.push(s[i]);
        proof {
            assert(s@.take(i as int).push(s@[i as int]) =~= s@.take(i as int + 1));
        }
        i = i + 1;
    }
    proof {
        assert(s@.take(len as int) =~= s@);
    }
}

/// Exact byte-wise comparison.
pub(crate) fn bytes_eq(a: &[u8], b: &[u8]) -> (r: bool)
    ensures
        r == (a@ == b@),
{
    let n = a.len();
    if n != b.len() {
        return false;
    }
    let mut i: usize = 0;
    while i < n
        invariant
            i <= n,
            n == a@.len() == b@.len(),
            forall|k: int| 0 <= k < i ==> a@[k] == b@[k],
        decreases n - i,
    {
        if a[i] != b[i] {
            return false;
        }
        i = i + 1;
    }
    proof {
        assert(a@ =~= b@);
    }
    true
}

/// Matches the literal at position `i`, exactly as `parse_lit` describes.
pub(crate) fn expect_bytes(data: &[u8], i: usize, lit: &[u8]) -> (r: Option<usize>)
    requires
        i <= data@.len(),
    ensures
        match r {
            Some(j) => i <= j <= data@.len() && parse_lit(data@.skip(i as int), lit@) == Some(
                data@.skip(j as int),
            ),
            None => parse_lit(data@.skip(i as int), lit@) is None,
        },
{
    let n = data.len();
    let m = lit.len();
    if n - i < m {
        return None;
    }
    let mut k: usize = 0;
    while k < m
        invariant
            k <= m,
            i + m <= n,
            n == data@.len(),
            m == lit@.len(),
            forall|t: int| 0 <= t < k ==> data@[i + t] == lit@[t],
        decreases m - k,
    {
        if data[i + k] != lit[k] {
            proof {
                let s = data@.skip(i as int);
                assert(s.take(m as int)[k as int] == data@[i + k]);
            }
            return None;
        }
        k = k + 1;
    }
    proof {
        let s = data@.skip(i as int);
        assert(s.take(m as int) =~= lit@);
        assert(s.skip(m as int) =~= data@.skip(i + m));
    }
    Some(i + m)
}

/// Relies on `String::from_utf8`: it accepts exactly the valid UTF-8 byte
/// sequences and yields the string those bytes encode.
#[verifier::external_body]
pub(crate) fn bytes_to_string(v: Vec<u8>) -> (r: Option<String>)
    ensures
        r is Some <==> valid_utf8(v@),
        r matches Some(s) ==> s@ == decode_utf8(v@),
{
    match String::from_utf8(v) {
        Ok(s) => Some(s),
        Err(_) => None,
    }
}

proof fn lemma_type_name_plain(t: MessageType)
    ensures
        crate::escape::escape_bytes(type_name_bytes(t)) == type_name_bytes(t),
{
    let tn = type_name_bytes(t);
    assert(forall|i: int| 0 <= i < tn.len() ==> #[trigger] tn[i] >= 0x20 && tn[i] != 0x22 && tn[i]
        != 0x5c);
    lemma_escape_bytes_plain(tn);
}

proof fn lemma_source_name_plain(s: MessageSource)
    ensures
        crate::escape::escape_bytes(source_name_bytes(s)) == source_name_bytes(s),
{
    let sn = source_name_bytes(s);
    assert(forall|i: int| 0 <= i < sn.len() ==> #[trigger] sn[i] >= 0x20 && sn[i] != 0x22 && sn[i]
        != 0x5c);
    lemma_escape_bytes_plain(sn);
}

/// Appends a quoted, escaped JSON string whose content bytes are `s`.
fn push_json_string(out: &mut Vec<u8>, s: &[u8])
    ensures
        final(out)@ == old(out)@ + json_string(s@),
{
    out.push(QUOTE);
    escape_into(out, s);
    out.push(QUOTE);
    proof {
        assert(out@ =~= old(out)@ + json_string(s@));
    }
}

/// Appends the field value for an optional string: `null` or a quoted string.
fn push_json_opt_string(out: &mut Vec<u8>, s: &Option<String>)
    ensures
        final(out)@ == old(out)@ + json_opt_string(opt_string_view(*s)),
{
    match s {
        None => {
            let lit: [u8; 4] = [0x6e, 0x75, 0x6c, 0x6c];
            proof {
                assert(lit@ =~= lit_null());
            }
            push_bytes(out, lit.as_slice());
        },
        Some(t) => {
            push_json_string(out, t.as_str().as_bytes());
        },
    }
}

fn push_type_name(out: &mut Vec<u8>, t: &MessageType)
    ensures
        final(out)@ == old(out)@ + json_string(type_name_bytes(*t)),
{
    out.push(QUOTE);
    match t {
        MessageType::Join => {
            let a: [u8; 4] = [0x4a, 0x6f, 0x69, 0x6e];
            proof {
                assert(a@ =~= type_name_bytes(*t));
            }
            push_bytes(out, a.as_slice());
        },
        MessageType::Chat => {
            let a: [u8; 4] = [0x43, 0x68, 0x61, 0x74];
            proof {
                assert(a@ =~= type_name_bytes(*t));
            }
            push_bytes(out, a.as_slice());
        },
        MessageType::Leave => {
            let a: [u8; 5] = [0x4c, 0x65, 0x61, 0x76, 0x65];
            proof {
                assert(a@ =~= type_name_bytes(*t));
            }
            push_bytes(out, a.as_slice());
        },
        MessageType::PeerList => {
            let a: [u8; 8] = [0x50, 0x65, 0x65, 0x72, 0x4c, 0x69, 0x73, 0x74];
            proof {
                assert(a@ =~= type_name_bytes(*t));
            }
            push_bytes(out, a.as_slice());
        },
        MessageType::PeerListRequest => {
            let a: [u8; 15] = [
                0x50,
                0x65,
                0x65,
                0x72,
                0x4c,
                0x69,
                0x73,
                0x74,
                0x52,
                0x65,
                0x71,
                0x75,
                0x65,
                0x73,
                0x74,
            ];
            proof {
                assert(a@ =~= type_name_bytes(*t));
            }
            push_bytes(out, a.as_slice());
        },
        MessageType::ConnectRequest => {
            let a: [u8; 14] = [
                0x43,
                0x6f,
                0x6e,
                0x6e,
                0x65,
                0x63,
                0x74,
                0x52,
                0x65,
                0x71,
                0x75,
                0x65,
                0x73,
                0x74,
            ];
            proof {
                assert(a@ =~= type_name_bytes(*t));
            }
            push_bytes(out, a.as_slice());
        },
        MessageType::ConnectResponse => {
            let a: [u8; 15] = [
                0x43,
                0x6f,
                0x6e,
                0x6e,
                0x65,
                0x63,
                0x74,
                0x52,
                0x65,
                0x73,
                0x70,
                0x6f,
                0x6e,
                0x73,
                0x65,
            ];
            proof {
                assert(a@ =~= type_name_bytes(*t));
            }
            push_bytes(out, a.as_slice());
        },
        MessageType::Heartbeat => {
            let a: [u8; 9] = [0x48, 0x65, 0x61, 0x72, 0x74, 0x62, 0x65, 0x61, 0x74];
            proof {
                assert(a@ =~= type_name_bytes(*t));
            }
            push_bytes(out, a.as_slice());
        },
        MessageType::UserJoined => {
            let a: [u8; 10] = [0x55, 0x73, 0x65, 0x72, 0x4a, 0x6f, 0x69, 0x6e, 0x65, 0x64];
            proof {
                assert(a@ =~= type_name_bytes(*t));
            }
            push_bytes(out, a.as_slice());
        },
        MessageType::UserLeft => {
            let a: [u8; 8] = [0x55, 0x73, 0x65, 0x72, 0x4c, 0x65, 0x66, 0x74];
            proof {
                assert(a@ =~= type_name_bytes(*t));
            }
            push_bytes(out, a.as_slice());
        },
    }
    out.push(QUOTE);
    proof {
        lemma_type_name_plain(*t);
        assert(out@ =~= old(out)@ + json_string(type_name_bytes(*t)));
    }
}

fn push_source_name(out: &mut Vec<u8>, s: &MessageSource)
    ensures
        final(out)@ == old(out)@ + json_string(source_name_bytes(*s)),
{
    out.push(QUOTE);
    match s {
        MessageSource::Server => {
            let a: [u8; 6] = [0x53, 0x65, 0x72, 0x76, 0x65, 0x72];
            proof {
                assert(a@ =~= source_name_bytes(*s));
            }
            push_bytes(out, a.as_slice());
        },
        MessageSource::Peer => {
            let a: [u8; 4] = [0x50, 0x65, 0x65, 0x72];
            proof {
                assert(a@ =~= source_name_bytes(*s));
            }
            push_bytes(out, a.as_slice());
        },
    }
    out.push(QUOTE);
    proof {
        lemma_source_name_plain(*s);
        assert(out@ =~= old(out)@ + json_string(source_name_bytes(*s)));
    }
}

/// The frame body of `message`, exactly `encode_frame_body` of its view.
pub fn serialize_body(message: &Message) -> (out: Vec<u8>)
    ensures
        out@ == encode_frame_body(message@),
{
    let mut out: Vec<u8> = Vec::new();
    proof {
        assert(out@ + lit_obj_head() =~= lit_obj_head());
    }
    let head: [u8; 12] = [0x7b, 0x22, 0x6d, 0x73, 0x67, 0x5f, 0x74, 0x79, 0x70, 0x65, 0x22, 0x3a];
    proof {
        assert(head@ =~= lit_obj_head());
    }
    push_bytes(&mut out, head.as_slice());
    push_type_name(&mut out, &message.msg_type);
    let sender_key: [u8; 13] = [
        0x2c,
        0x22,
        0x73,
        0x65,
        0x6e,
        0x64,
        0x65,
        0x72,
        0x5f,
        0x69,
        0x64,
        0x22,
        0x3a,
    ];
    proof {
        assert(sender_key@ =~= lit_sender_key());
    }
    push_bytes(&mut out, sender_key.as_slice());
    push_json_string(&mut out, message.sender_id.as_str().as_bytes());
    let target_key: [u8; 13] = [
        0x2c,
        0x22,
        0x74,
        0x61,
        0x72,
        0x67,
        0x65,
        0x74,
        0x5f,
        0x69,
        0x64,
        0x22,
        0x3a,
    ];
    proof {
        assert(target_key@ =~= lit_target_key());
    }
    push_bytes(&mut out, target_key.as_slice());
    push_json_opt_string(&mut out, &message.target_id);
    let content_key: [u8; 11] = [0x2c, 0x22, 0x63, 0x6f, 0x6e, 0x74, 0x65, 0x6e, 0x74, 0x22, 0x3a];
    proof {
        assert(content_key@ =~= lit_content_key());
    }
    push_bytes(&mut out, content_key.as_slice());
    push_json_opt_string(&mut out, &message.content);
    let addr_key: [u8; 23] = [
        0x2c,
        0x22,
        0x73,
        0x65,
        0x6e,
        0x64,
        0x65,
        0x72,
        0x5f,
        0x70,
        0x65,
        0x65,
        0x72,
        0x5f,
        0x61,
        0x64,
        0x64,
        0x72,
        0x65,
        0x73,
        0x73,
        0x22,
        0x3a,
    ];
    proof {
        assert(addr_key@ =~= lit_addr_key());
    }
    push_bytes(&mut out, addr_key.as_slice());
    push_json_string(&mut out, message.sender_peer_address.as_str().as_bytes());
    let port_key: [u8; 22] = [
        0x2c,
        0x22,
        0x73,
        0x65,
        0x6e,
        0x64,
        0x65,
        0x72,
        0x5f,
        0x6c,
        0x69,
        0x73,
        0x74,
        0x65,
        0x6e,
        0x5f,
        0x70,
        0x6f,
        0x72,
        0x74,
        0x22,
        0x3a,
    ];
    proof {
        assert(port_key@ =~= lit_port_key());
    }
    push_bytes(&mut out, port_key.as_slice());
    enc_u64(&mut out, message.sender_listen_port as u64);
    let ts_key: [u8; 13] = [
        0x2c,
        0x22,
        0x74,
        0x69,
        0x6d,
        0x65,
        0x73,
        0x74,
        0x61,
        0x6d,
        0x70,
        0x22,
        0x3a,
    ];
    proof {
        assert(ts_key@ =~= lit_ts_key());
    }
    push_bytes(&mut out, ts_key.as_slice());
    enc_u64(&mut out, message.timestamp);
    let source_key: [u8; 10] = [0x2c, 0x22, 0x73, 0x6f, 0x75, 0x72, 0x63, 0x65, 0x22, 0x3a];
    proof {
        assert(source_key@ =~= lit_source_key());
    }
    push_bytes(&mut out, source_key.as_slice());
    push_source_name(&mut out, &message.source);
    out.push(0x7d);
    proof {
        assert(out@ =~= encode_frame_body(message@));
    }
    out
}

/// Serializes `message` to one wire frame: the frame body followed by the
/// newline delimiter. Never fails for any message value.
pub fn serialize_message(message: &Message) -> (r: Result<Vec<u8>, P2PError>)
    ensures
        r matches Ok(bytes) && bytes@ == encode_frame_body(message@) + seq![0x0au8],
{
    let mut out = serialize_body(message);
    out.push(0x0a);
    proof {
        assert(out@ =~= encode_frame_body(message@) + seq![0x0au8]);
    }
    Ok(out)
}

pub open spec fn opt_vec_view(o: Option<Vec<u8>>) -> Option<Seq<u8>> {
    match o {
        None => None,
        Some(v) => Some(v@),
    }
}

/// Reads an optional string field (`null` or a quoted string) at `i`,
/// exactly as `parse_json_opt_string` describes.
fn parse_opt_string_at(data: &[u8], i: usize) -> (r: Option<(Option<Vec<u8>>, usize)>)
    requires
        i <= data@.len(),
    ensures
        match r {
            Some(p) => p.1 <= data@.len() && parse_json_opt_string(data@.skip(i as int)) == Some(
                (opt_vec_view(p.0), data@.skip(p.1 as int)),
            ),
            None => parse_json_opt_string(data@.skip(i as int)) is None,
        },
{
    let len = data.len();
    if i < len && data[i] == 0x6e {
        proof {
            assert(data@.skip(i as int)[0] == data@[i as int]);
        }
        let nl: [u8; 4] = [0x6e, 0x75, 0x6c, 0x6c];
        proof {
            assert(nl@ =~= lit_null());
        }
        match expect_bytes(data, i, nl.as_slice()) {
            Some(j) => Some((None, j)),
            None => None,
        }
    } else if i < len && data[i] == QUOTE {
        proof {
            assert(data@.skip(i as int)[0] == data@[i as int]);
            assert(data@.skip(i as int).skip(1) =~= data@.skip(i as int + 1));
        }
        match parse_string_at(data, i + 1) {
            Some((v, j)) => Some((Some(v), j)),
            None => None,
        }
    } else {
        proof {
            if i < data@.len() {
                assert(data@.skip(i as int)[0] == data@[i as int]);
            } else {
                assert(data@.skip(i as int).len() == 0);
            }
        }
        None
    }
}

/// The message type whose wire name is `name`, exactly `type_of_name`.
fn type_from_bytes(name: &Vec<u8>) -> (r: Option<MessageType>)
    ensures
        r == type_of_name(name@),
{
    let a_join: [u8; 4] = [0x4a, 0x6f, 0x69, 0x6e];
    let a_chat: [u8; 4] = [0x43, 0x68, 0x61, 0x74];
    let a_leave: [u8; 5] = [0x4c, 0x65, 0x61, 0x76, 0x65];
    let a_plist: [u8; 8] = [0x50, 0x65, 0x65, 0x72, 0x4c, 0x69, 0x73, 0x74];
    let a_plreq: [u8; 15] = [
        0x50,
        0x65,
        0x65,
        0x72,
        0x4c,
        0x69,
        0x73,
        0x74,
        0x52,
        0x65,
        0x71,
        0x75,
        0x65,
        0x73,
        0x74,
    ];
    let a_creq: [u8; 14] = [
        0x43,
        0x6f,
        0x6e,
        0x6e,
        0x65,
        0x63,
        0x74,
        0x52,
        0x65,
        0x71,
        0x75,
        0x65,
        0x73,
        0x74,
    ];
    let a_cres: [u8; 15] = [
        0x43,
        0x6f,
        0x6e,
        0x6e,
        0x65,
        0x63,
        0x74,
        0x52,
        0x65,
        0x73,
        0x70,
        0x6f,
        0x6e,
        0x73,
        0x65,
    ];
    let a_hb: [u8; 9] = [0x48, 0x65, 0x61, 0x72, 0x74, 0x62, 0x65, 0x61, 0x74];
    let a_uj: [u8; 10] = [0x55, 0x73, 0x65, 0x72, 0x4a, 0x6f, 0x69, 0x6e, 0x65, 0x64];
    let a_ul: [u8; 8] = [0x55, 0x73, 0x65, 0x72, 0x4c, 0x65, 0x66, 0x74];
    proof {
        assert(a_join@ =~= type_name_bytes(MessageType::Join));
        assert(a_chat@ =~= type_name_bytes(MessageType::Chat));
        assert(a_leave@ =~= type_name_bytes(MessageType::Leave));
        assert(a_plist@ =~= type_name_bytes(MessageType::PeerList));
        assert(a_plreq@ =~= type_name_bytes(MessageType::PeerListRequest));
        assert(a_creq@ =~= type_name_bytes(MessageType::ConnectRequest));
        assert(a_cres@ =~= type_name_bytes(MessageType::ConnectResponse));
        assert(a_hb@ =~= type_name_bytes(MessageType::Heartbeat));
        assert(a_uj@ =~= type_name_bytes(MessageType::UserJoined));
        assert(a_ul@ =~= type_name_bytes(MessageType::UserLeft));
    }
    let nm = name.as_slice();
    if bytes_eq(nm, a_join.as_slice()) {
        Some(MessageType::Join)
    } else if bytes_eq(nm, a_chat.as_slice()) {
        Some(MessageType::Chat)
    } else if bytes_eq(nm, a_leave.as_slice()) {
        Some(MessageType::Leave)
    } else if bytes_eq(nm, a_plist.as_slice()) {
        Some(MessageType::PeerList)
    } else if bytes_eq(nm, a_plreq.as_slice()) {
        Some(MessageType::PeerListRequest)
    } else if bytes_eq(nm, a_creq.as_slice()) {
        Some(MessageType::ConnectRequest)
    } else if bytes_eq(nm, a_cres.as_slice()) {
        Some(MessageType::ConnectResponse)
    } else if bytes_eq(nm, a_hb.as_slice()) {
        Some(MessageType::Heartbeat)
    } else if bytes_eq(nm, a_uj.as_slice()) {
        Some(MessageType::UserJoined)
    } else if bytes_eq(nm, a_ul.as_slice()) {
        Some(MessageType::UserLeft)
    } else {
        None
    }
}

/// The message source whose wire name is `name`, exactly `source_of_name`.
fn source_from_bytes(name: &Vec<u8>) -> (r: Option<MessageSource>)
    ensures
        r == source_of_name(name@),
{
    let a_server: [u8; 6] = [0x53, 0x65, 0x72, 0x76, 0x65, 0x72];
    let a_peer: [u8; 4] = [0x50, 0x65, 0x65, 0x72];
    proof {
        assert(a_server@ =~= source_name_bytes(MessageSource::Server));
        assert(a_peer@ =~= source_name_bytes(MessageSource::Peer));
    }
    let nm = name.as_slice();
    if bytes_eq(nm, a_server.as_slice()) {
        Some(MessageSource::Server)
    } else if bytes_eq(nm, a_peer.as_slice()) {
        Some(MessageSource::Peer)
    } else {
        None
    }
}

/// Decodes an optional field's content bytes into an optional string.
fn opt_bytes_to_string(o: Option<Vec<u8>>) -> (r: Option<Option<String>>)
    ensures
        r is Some <==> opt_bytes_valid_utf8(opt_vec_view(o)),
        r matches Some(s) ==> opt_string_view(s) == opt_bytes_decode(opt_vec_view(o)),
{
    match o {
        None => Some(None),
        Some(v) => match bytes_to_string(v) {
            Some(s) => Some(Some(s)),
            None => None,
        },
    }
}

/// Parses the second half of the frame, exactly as `decode_frame_tail`
/// describes on the suffix starting at `i`.
#[verifier::rlimit(60)]
fn parse_frame_tail_exec(
    data: &[u8],
    i: usize,
    msg_type: MessageType,
    sender_id: String,
    target_id: Option<String>,
    content: Option<String>,
) -> (r: Option<Message>)
    requires
        i <= data@.len(),
    ensures
        match r {
            Some(m) => decode_frame_tail(
                data@.skip(i as int),
                msg_type,
                sender_id@,
                opt_string_view(target_id),
                opt_string_view(content),
            ) == Some(m@),
            None => decode_frame_tail(
                data@.skip(i as int),
                msg_type,
                sender_id@,
                opt_string_view(target_id),
                opt_string_view(content),
            ) is None,
        },
{
    let len = data.len();
    let addr_key: [u8; 23] = [
        0x2c,
        0x22,
        0x73,
        0x65,
        0x6e,
        0x64,
        0x65,
        0x72,
        0x5f,
        0x70,
        0x65,
        0x65,
        0x72,
        0x5f,
        0x61,
        0x64,
        0x64,
        0x72,
        0x65,
        0x73,
        0x73,
        0x22,
        0x3a,
    ];
    proof {
        assert(addr_key@ =~= lit_addr_key());
    }
    let j9 = match expect_bytes(data, i, addr_key.as_slice()) {
        Some(j) => j,
        None => {
            return None;
        },
    };
    if j9 == len {
        proof {
            assert(data@.skip(j9 as int).len() == 0);
        }
        return None;
    }
    proof {
        assert(data@.skip(j9 as int)[0] == data@[j9 as int]);
        assert(data@.skip(j9 as int).skip(1) =~= data@.skip(j9 as int + 1));
    }
    if data[j9] != QUOTE {
        return None;
    }
    let (av, j10) = match parse_string_at(data, j9 + 1) {
        Some(p) => p,
        None => {
            return None;
        },
    };
    let addr_s = match bytes_to_string(av) {
        Some(s) => s,
        None => {
            return None;
        },
    };
    let port_key: [u8; 22] = [
        0x2c,
        0x22,
        0x73,
        0x65,
        0x6e,
        0x64,
        0x65,
        0x72,
        0x5f,
        0x6c,
        0x69,
        0x73,
        0x74,
        0x65,
        0x6e,
        0x5f,
        0x70,
        0x6f,
        0x72,
        0x74,
        0x22,
        0x3a,
    ];
    proof {
        assert(port_key@ =~= lit_port_key());
    }
    let j11 = match expect_bytes(data, j10, port_key.as_slice()) {
        Some(j) => j,
        None => {
            return None;
        },
    };
    let (port, j12) = match parse_u64_at(data, j11) {
        Some(p) => p,
        None => {
            return None;
        },
    };
    if port > 0xffff {
        return None;
    }
    let ts_key: [u8; 13] = [
        0x2c,
        0x22,
        0x74,
        0x69,
        0x6d,
        0x65,
        0x73,
        0x74,
        0x61,
        0x6d,
        0x70,
        0x22,
        0x3a,
    ];
    proof {
        assert(ts_key@ =~= lit_ts_key());
    }
    let j13 = match expect_bytes(data, j12, ts_key.as_slice()) {
        Some(j) => j,
        None => {
            return None;
        },
    };
    let (ts, j14) = match parse_u64_at(data, j13) {
        Some(p) => p,
        None => {
            return None;
        },
    };
    let source_key: [u8; 10] = [0x2c, 0x22, 0x73, 0x6f, 0x75, 0x72, 0x63, 0x65, 0x22, 0x3a];
    proof {
        assert(source_key@ =~= lit_source_key());
    }
    let j15 = match expect_bytes(data, j14, source_key.as_slice()) {
        Some(j) => j,
        None => {
            return None;
        },
    };
    if j15 == len {
        proof {
            assert(data@.skip(j15 as int).len() == 0);
        }
        return None;
    }
    proof {
        assert(data@.skip(j15 as int)[0] == data@[j15 as int]);
        assert(data@.skip(j15 as int).skip(1) =~= data@.skip(j15 as int + 1));
    }
    if data[j15] != QUOTE {
        return None;
    }
    let (sv, j16) = match parse_string_at(data, j15 + 1) {
        Some(p) => p,
        None => {
            return None;
        },
    };
    let source = match source_from_bytes(&sv) {
        Some(s) => s,
        None => {
            return None;
        },
    };
    let close: [u8; 1] = [0x7d];
    proof {
        assert(close@ =~= lit_obj_close());
    }
    let j17 = match expect_bytes(data, j16, close.as_slice()) {
        Some(j) => j,
        None => {
            return None;
        },
    };
    if j17 != len {
        return None;
    }
    let m = Message {
        msg_type,
        sender_id,
        target_id,
        content,
        sender_peer_address: addr_s,
        sender_listen_port: port as u16,
        timestamp: ts,
        source,
    };
    proof {
        assert(data@.skip(j17 as int).len() == 0);
        assert(decode_frame_tail(
            data@.skip(i as int),
            msg_type,
            m.sender_id@,
            opt_string_view(m.target_id),
            opt_string_view(m.content),
        ) == Some(m@));
    }
    Some(m)
}

/// Parses one frame body, exactly as `decode_frame` describes.
#[verifier::rlimit(60)]
fn parse_frame_exec(data: &[u8]) -> (r: Option<Message>)
    ensures
        match r {
            Some(m) => decode_frame(data@) == Some(m@),
            None => decode_frame(data@) is None,
        },
{
    let len = data.len();
    proof {
        assert(data@.skip(0) =~= data@);
    }
    let head: [u8; 12] = [0x7b, 0x22, 0x6d, 0x73, 0x67, 0x5f, 0x74, 0x79, 0x70, 0x65, 0x22, 0x3a];
    proof {
        assert(head@ =~= lit_obj_head());
    }
    let j1 = match expect_bytes(data, 0, head.as_slice()) {
        Some(j) => j,
        None => {
            return None;
        },
    };
    if j1 == len {
        proof {
            assert(data@.skip(j1 as int).len() == 0);
        }
        return None;
    }
    proof {
        assert(data@.skip(j1 as int)[0] == data@[j1 as int]);
        assert(data@.skip(j1 as int).skip(1) =~= data@.skip(j1 as int + 1));
    }
    if data[j1] != QUOTE {
        return None;
    }
    let (tn, j2) = match parse_string_at(data, j1 + 1) {
        Some(p) => p,
        None => {
            return None;
        },
    };
    let msg_type = match type_from_bytes(&tn) {
        Some(t) => t,
        None => {
            return None;
        },
    };
    let sender_key: [u8; 13] = [
        0x2c,
        0x22,
        0x73,
        0x65,
        0x6e,
        0x64,
        0x65,
        0x72,
        0x5f,
        0x69,
        0x64,
        0x22,
        0x3a,
    ];
    proof {
        assert(sender_key@ =~= lit_sender_key());
    }
    let j3 = match expect_bytes(data, j2, sender_key.as_slice()) {
        Some(j) => j,
        None => {
            return None;
        },
    };
    if j3 == len {
        proof {
            assert(data@.skip(j3 as int).len() == 0);
        }
        return None;
    }
    proof {
        assert(data@.skip(j3 as int)[0] == data@[j3 as int]);
        assert(data@.skip(j3 as int).skip(1) =~= data@.skip(j3 as int + 1));
    }
    if data[j3] != QUOTE {
        return None;
    }
    let (sb, j4) = match parse_string_at(data, j3 + 1) {
        Some(p) => p,
        None => {
            return None;
        },
    };
    let sender_id = match bytes_to_string(sb) {
        Some(s) => s,
        None => {
            return None;
        },
    };
    let target_key: [u8; 13] = [
        0x2c,
        0x22,
        0x74,
        0x61,
        0x72,
        0x67,
        0x65,
        0x74,
        0x5f,
        0x69,
        0x64,
        0x22,
        0x3a,
    ];
    proof {
        assert(target_key@ =~= lit_target_key());
    }
    let j5 = match expect_bytes(data, j4, target_key.as_slice()) {
        Some(j) => j,
        None => {
            return None;
        },
    };
    let (tb, j6) = match parse_opt_string_at(data, j5) {
        Some(p) => p,
        None => {
            return None;
        },
    };
    let target_id = match opt_bytes_to_string(tb) {
        Some(o) => o,
        None => {
            return None;
        },
    };
    let content_key: [u8; 11] = [0x2c, 0x22, 0x63, 0x6f, 0x6e, 0x74, 0x65, 0x6e, 0x74, 0x22, 0x3a];
    proof {
        assert(content_key@ =~= lit_content_key());
    }
    let j7 = match expect_bytes(data, j6, content_key.as_slice()) {
        Some(j) => j,
        None => {
            return None;
        },
    };
    let (cb, j8) = match parse_opt_string_at(data, j7) {
        Some(p) => p,
        None => {
            return None;
        },
    };
    let content = match opt_bytes_to_string(cb) {
        Some(o) => o,
        None => {
            return None;
        },
    };
    let r = parse_frame_tail_exec(data, j8, msg_type, sender_id, target_id, content);
    proof {
        match r {
            Some(ref m) => {
                assert(decode_frame(data@) == Some(m@));
            },
            None => {
                assert(decode_frame(data@) is None);
            },
        }
    }
    r
}

/// Deserializes one frame body (the delimiter already stripped): `Ok`
/// exactly when the bytes are a well-formed frame, `Err` with a
/// serialization error otherwise.
pub fn deserialize_message(data: &[u8]) -> (r: Result<Message, P2PError>)
    ensures
        match r {
            Ok(m) => decode_frame(data@) == Some(m@),
            Err(e) => decode_frame(data@) is None && e is SerializationError,
        },
{
    match parse_frame_exec(data) {
        Some(m) => Ok(m),
        None => Err(P2PError::SerializationError("malformed frame".to_owned())),
    }
}

} // verus!
