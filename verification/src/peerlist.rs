//! The directory export format: a peer list is serialized into a message's
//! content string as a nested JSON array `[["user","host",port],...]`, and
//! a connect response's content carries one `host,port` pair. Encoders
//! return real strings (the encoded bytes are valid UTF-8); parsers are
//! exact against the spec functions here.

use vstd::prelude::*;
use vstd::utf8::*;

verus! {

use crate::messages::PeerInfo;
use crate::escape::{escape_into, parse_string_at, QUOTE};
use crate::decimal::{dec_digits, parse_dec, enc_u64, parse_u64_at, lemma_dec_digits_are_digits};
use crate::wire::{json_string, parse_json_string};
use crate::utf8help::lemma_escape_preserves_valid_utf8;
use crate::utf8help::lemma_ascii_valid_utf8;
use crate::codec::{bytes_to_string, push_bytes};

pub const COMMA: u8 = 0x2c;

pub const LBRACK: u8 = 0x5b;

pub const RBRACK: u8 = 0x5d;

/// What one directory entry contributes to the export: user, host, port.
pub open spec fn peer_infos_view(ps: Seq<PeerInfo>) -> Seq<(Seq<char>, Seq<char>, u16)> {
    ps.map(|i: int, p: PeerInfo| (p.user_id@, p.address@, p.port))
}

pub open spec fn peer_entry_bytes(e: (Seq<char>, Seq<char>, u16)) -> Seq<u8> {
    seq![LBRACK] + json_string(encode_utf8(e.0)) + seq![COMMA] + json_string(encode_utf8(e.1))
        + seq![COMMA] + dec_digits(e.2 as nat) + seq![RBRACK]
}

pub open spec fn encode_peer_entries(ps: Seq<(Seq<char>, Seq<char>, u16)>) -> Seq<u8>
    decreases ps.len(),
{
    if ps.len() == 0 {
        Seq::empty()
    } else if ps.len() == 1 {
        peer_entry_bytes(ps[0])
    } else {
        peer_entry_bytes(ps[0]) + seq![COMMA] + encode_peer_entries(ps.skip(1))
    }
}

pub open spec fn encode_peer_list(ps: Seq<(Seq<char>, Seq<char>, u16)>) -> Seq<u8> {
    seq![LBRACK] + encode_peer_entries(ps) + seq![RBRACK]
}

/// One `["user","host",port]` entry at the front of `s`.
pub open spec fn parse_peer_entry(s: Seq<u8>) -> Option<((Seq<char>, Seq<char>, u16), Seq<u8>)> {
    if s.len() >= 1 && s[0] == LBRACK {
        match parse_json_string(s.skip(1)) {
            None => None,
            Some((idb, r1)) => if !valid_utf8(idb) {
                None
            } else if r1.len() >= 1 && r1[0] == COMMA {
                match parse_json_string(r1.skip(1)) {
                    None => None,
                    Some((ab, r2)) => if !valid_utf8(ab) {
                        None
                    } else if r2.len() >= 1 && r2[0] == COMMA {
                        match parse_dec(r2.skip(1)) {
                            None => None,
                            Some((v, r3)) => if v <= 0xffff && r3.len() >= 1 && r3[0] == RBRACK {
                                Some(((decode_utf8(idb), decode_utf8(ab), v as u16), r3.skip(1)))
                            } else {
                                None
                            },
                        }
                    } else {
                        None
                    },
                }
            } else {
                None
            },
        }
    } else {
        None
    }
}

/// One or more comma-separated entries at the front of `s`. An entry always
/// consumes at least one byte, so the guard against a non-shrinking
/// remainder never fires on a parsable input.
pub open spec fn parse_peer_entries(s: Seq<u8>) -> Option<
    (Seq<(Seq<char>, Seq<char>, u16)>, Seq<u8>),
>
    decreases s.len(),
{
    match parse_peer_entry(s) {
        None => None,
        Some((e, r1)) => if r1.len() >= s.len() {
            None
        } else if r1.len() >= 1 && r1[0] == COMMA {
            match parse_peer_entries(r1.skip(1)) {
                None => None,
                Some((es, r2)) => Some((seq![e] + es, r2)),
            }
        } else {
            Some((seq![e], r1))
        },
    }
}

pub open spec fn parse_peer_list(s: Seq<u8>) -> Option<(Seq<(Seq<char>, Seq<char>, u16)>, Seq<u8>)> {
    if s.len() >= 2 && s[0] == LBRACK && s[1] == RBRACK {
        Some((Seq::empty(), s.skip(2)))
    } else if s.len() >= 1 && s[0] == LBRACK {
        match parse_peer_entries(s.skip(1)) {
            None => None,
            Some((es, r)) => if r.len() >= 1 && r[0] == RBRACK {
                Some((es, r.skip(1)))
            } else {
                None
            },
        }
    } else {
        None
    }
}

/// The exact meaning of the peer-list parser on a whole content string.
pub open spec fn decode_peer_list_bytes(s: Seq<u8>) -> Option<Seq<(Seq<char>, Seq<char>, u16)>> {
    match parse_peer_list(s) {
        None => None,
        Some((es, r)) => if r.len() == 0 {
            Some(es)
        } else {
            None
        },
    }
}

proof fn lemma_json_string_valid_utf8(x: Seq<u8>)
    requires
        valid_utf8(x),
    ensures
        valid_utf8(json_string(x)),
{
    lemma_escape_preserves_valid_utf8(x);
    lemma_ascii_valid_utf8(seq![QUOTE]);
    valid_utf8_concat(seq![QUOTE], crate::escape::escape_bytes(x));
    valid_utf8_concat(seq![QUOTE] + crate::escape::escape_bytes(x), seq![QUOTE]);
}

proof fn lemma_peer_entry_bytes_valid(e: (Seq<char>, Seq<char>, u16))
    ensures
        valid_utf8(peer_entry_bytes(e)),
{
    broadcast use encode_utf8_valid_utf8;

    let a = seq![LBRACK];
    let b = json_string(encode_utf8(e.0));
    let c = seq![COMMA];
    let d = json_string(encode_utf8(e.1));
    let f = dec_digits(e.2 as nat);
    let g = seq![RBRACK];
    lemma_ascii_valid_utf8(a);
    lemma_ascii_valid_utf8(c);
    lemma_ascii_valid_utf8(g);
    lemma_json_string_valid_utf8(encode_utf8(e.0));
    lemma_json_string_valid_utf8(encode_utf8(e.1));
    lemma_dec_digits_are_digits(e.2 as nat);
    lemma_ascii_valid_utf8(f);
    valid_utf8_concat(a, b);
    valid_utf8_concat(a + b, c);
    valid_utf8_concat(a + b + c, d);
    valid_utf8_concat(a + b + c + d, c);
    valid_utf8_concat(a + b + c + d + c, f);
    valid_utf8_concat(a + b + c + d + c + f, g);
}

proof fn lemma_encode_peer_entries_valid(ps: Seq<(Seq<char>, Seq<char>, u16)>)
    ensures
        valid_utf8(encode_peer_entries(ps)),
    decreases ps.len(),
{
    if ps.len() == 0 {
    } else if ps.len() == 1 {
        lemma_peer_entry_bytes_valid(ps[0]);
    } else {
        lemma_peer_entry_bytes_valid(ps[0]);
        lemma_ascii_valid_utf8(seq![COMMA]);
        lemma_encode_peer_entries_valid(ps.skip(1));
        valid_utf8_concat(peer_entry_bytes(ps[0]), seq![COMMA]);
        valid_utf8_concat(peer_entry_bytes(ps[0]) + seq![COMMA], encode_peer_entries(ps.skip(1)));
    }
}

pub proof fn lemma_encode_peer_list_valid(ps: Seq<(Seq<char>, Seq<char>, u16)>)
    ensures
        valid_utf8(encode_peer_list(ps)),
{
    lemma_ascii_valid_utf8(seq![LBRACK]);
    lemma_ascii_valid_utf8(seq![RBRACK]);
    lemma_encode_peer_entries_valid(ps);
    valid_utf8_concat(seq![LBRACK], encode_peer_entries(ps));
    valid_utf8_concat(seq![LBRACK] + encode_peer_entries(ps), seq![RBRACK]);
}

/// Appends one encoded entry.
fn push_peer_entry(out: &mut Vec<u8>, p: &PeerInfo)
    ensures
        final(out)@ == old(out)@ + peer_entry_bytes((p.user_id@, p.address@, p.port)),
{
    out.push(LBRACK);
    out.push(QUOTE);
    escape_into(out, p.user_id.as_str().as_bytes());
    out.push(QUOTE);
    out.push(COMMA);
    out.push(QUOTE);
    escape_into(out, p.address.as_str().as_bytes());
    out.push(QUOTE);
    out.push(COMMA);
    enc_u64(out, p.port as u64);
    out.push(RBRACK);
    proof {
        assert(out@ =~= old(out)@ + peer_entry_bytes((p.user_id@, p.address@, p.port)));
    }
}

/// Serializes the peer list into the content string of a `PeerList`
/// message. Always succeeds; the string's UTF-8 bytes are exactly
/// `encode_peer_list` of the entries.
pub fn peer_list_content(ps: &Vec<PeerInfo>) -> (r: String)
    ensures
        encode_utf8(r@) == encode_peer_list(peer_infos_view(ps@)),
{
    let ghost pv = peer_infos_view(ps@);
    let mut out: Vec<u8> = Vec::new();
    out.push(LBRACK);
    let n = ps.len();
    let mut i: usize = 0;
    proof {
        assert(pv.skip(0) =~= pv);
        assert(out@ =~= seq![LBRACK]);
    }
    while i < n
        invariant
            i <= n,
            n == ps@.len(),
            pv == peer_infos_view(ps@),
            pv.len() == n,
            out@ + encode_peer_entries(pv.skip(i as int)) == seq![LBRACK] + encode_peer_entries(
                pv,
            ),
        decreases n - i,
    {
        let ghost rest = pv.skip(i as int);
        proof {
            assert(rest[0] == pv[i as int]);
            assert(pv[i as int] == (ps@[i as int].user_id@, ps@[i as int].address@, ps@[i as int].port));
            assert(rest.skip(1) =~= pv.skip(i as int + 1));
        }
        push_peer_entry(&mut out, &ps[i]);
        if i + 1 < n {
            out.push(COMMA);
            proof {
                assert(rest.len() >= 2);
                assert(encode_peer_entries(rest) == peer_entry_bytes(rest[0]) + seq![COMMA]
                    + encode_peer_entries(rest.skip(1)));
                assert(out@ + encode_peer_entries(pv.skip(i as int + 1)) =~= seq![LBRACK]
                    + encode_peer_entries(pv));
            }
        } else {
            proof {
                assert(rest.len() == 1);
                assert(encode_peer_entries(rest) == peer_entry_bytes(rest[0]));
                assert(out@ + encode_peer_entries(pv.skip(i as int + 1)) =~= seq![LBRACK]
                    + encode_peer_entries(pv));
            }
        }
        i = i + 1;
    }
    proof {
        assert(pv.skip(n as int) =~= Seq::<(Seq<char>, Seq<char>, u16)>::empty());
        assert(out@ =~= seq![LBRACK] + encode_peer_entries(pv));
    }
    out.push(RBRACK);
    proof {
        assert(out@ =~= encode_peer_list(pv));
        lemma_encode_peer_list_valid(pv);
    }
    let ghost encoded = out@;
    match bytes_to_string(out) {
        Some(s) => {
            proof {
                decode_utf8_encode_utf8(encoded);
            }
            s
        },
        None => {
            proof {
                assert(false);
            }
            String::new()
        },
    }
}

/// Reads one peer entry at position `i`, exactly as `parse_peer_entry`
/// describes on the suffix.
fn parse_peer_entry_at(data: &[u8], i: usize) -> (r: Option<(PeerInfo, usize)>)
    requires
        i <= data@.len(),
    ensures
        match r {
            Some(p) => i < p.1 <= data@.len() && parse_peer_entry(data@.skip(i as int)) == Some(
                ((p.0.user_id@, p.0.address@, p.0.port), data@.skip(p.1 as int)),
            ) && p.0.last_heartbeat == 0,
            None => parse_peer_entry(data@.skip(i as int)) is None,
        },
{
    let len = data.len();
    if i == len {
        proof {
            assert(data@.skip(i as int).len() == 0);
        }
        return None;
    }
    proof {
        assert(data@.skip(i as int)[0] == data@[i as int]);
        assert(data@.skip(i as int).skip(1) =~= data@.skip(i as int + 1));
    }
    if data[i] != LBRACK {
        return None;
    }
    if i + 1 == len {
        proof {
            assert(data@.skip(i as int + 1).len() == 0);
        }
        return None;
    }
    proof {
        assert(data@.skip(i as int + 1)[0] == data@[i as int + 1]);
        assert(data@.skip(i as int + 1).skip(1) =~= data@.skip(i as int + 2));
    }
    if data[i + 1] != QUOTE {
        return None;
    }
    let (idb, j1) = match parse_string_at(data, i + 2) {
        Some(p) => p,
        None => {
            return None;
        },
    };
    let user_id = match bytes_to_string(idb) {
        Some(s) => s,
        None => {
            return None;
        },
    };
    if j1 == len {
        proof {
            assert(data@.skip(j1 as int).len() == 0);
        }
        return None;
    }
    proof {
        assert(data@.skip(j1 as int)[0] == data@[j1 as int]);
        assert(data@.skip(j1 as int).skip(1) =~= data@.skip(j1 as int + 1));
    }
    if data[j1] != COMMA {
        return None;
    }
    if j1 + 1 == len {
        proof {
            assert(data@.skip(j1 as int + 1).len() == 0);
        }
        return None;
    }
    proof {
        assert(data@.skip(j1 as int + 1)[0] == data@[j1 as int + 1]);
        assert(data@.skip(j1 as int + 1).skip(1) =~= data@.skip(j1 as int + 2));
    }
    if data[j1 + 1] != QUOTE {
        return None;
    }
    let (ab, j2) = match parse_string_at(data, j1 + 2) {
        Some(p) => p,
        None => {
            return None;
        },
    };
    let address = match bytes_to_string(ab) {
        Some(s) => s,
        None => {
            return None;
        },
    };
    if j2 == len {
        proof {
            assert(data@.skip(j2 as int).len() == 0);
        }
        return None;
    }
    proof {
        assert(data@.skip(j2 as int)[0] == data@[j2 as int]);
        assert(data@.skip(j2 as int).skip(1) =~= data@.skip(j2 as int + 1));
    }
    if data[j2] != COMMA {
        return None;
    }
    let (v, j3) = match parse_u64_at(data, j2 + 1) {
        Some(p) => p,
        None => {
            return None;
        },
    };
    if v > 0xffff {
        return None;
    }
    if j3 == len {
        proof {
            assert(data@.skip(j3 as int).len() == 0);
        }
        return None;
    }
    proof {
        assert(data@.skip(j3 as int)[0] == data@[j3 as int]);
        assert(data@.skip(j3 as int).skip(1) =~= data@.skip(j3 as int + 1));
    }
    if data[j3] != RBRACK {
        return None;
    }
    let p = PeerInfo { user_id, address, port: v as u16, last_heartbeat: 0 };
    proof {
        assert(parse_peer_entry(data@.skip(i as int)) == Some(
            ((p.user_id@, p.address@, p.port), data@.skip(j3 as int + 1)),
        ));
    }
    Some((p, j3 + 1))
}

/// Parses a peer-list content string, exactly as `decode_peer_list_bytes`
/// describes on its UTF-8 bytes. Entries come back in list order with a
/// zero heartbeat stamp.
pub fn decode_peer_list(content: &str) -> (r: Option<Vec<PeerInfo>>)
    ensures
        match r {
            Some(ps) => decode_peer_list_bytes(encode_utf8(content@)) == Some(peer_infos_view(ps@))
                && forall|k: int| 0 <= k < ps@.len() ==> #[trigger] ps@[k].last_heartbeat == 0,
            None => decode_peer_list_bytes(encode_utf8(content@)) is None,
        },
{
    let data = content.as_bytes();
    let len = data.len();
    proof {
        assert(data@.skip(0) =~= data@);
    }
    if len >= 2 && data[0] == LBRACK && data[1] == RBRACK {
        if len == 2 {
            let empty_list: Vec<PeerInfo> = Vec::new();
            proof {
                assert(data@.skip(2).len() == 0);
                assert(peer_infos_view(empty_list@) =~= Seq::<(Seq<char>, Seq<char>, u16)>::empty());
            }
            return Some(empty_list);
        }
        proof {
            assert(data@.skip(2).len() > 0);
        }
        return None;
    }
    if len == 0 {
        return None;
    }
    proof {
        assert(data@[0] == data@.skip(0)[0]);
    }
    if data[0] != LBRACK {
        return None;
    }
    proof {
        assert(data@.skip(0).skip(1) =~= data@.skip(1));
    }
    let mut acc: Vec<PeerInfo> = Vec::new();
    let mut j: usize = 1;
    loop
        invariant
            1 <= j <= len,
            len == data@.len(),
            data@ == encode_utf8(content@),
            data@[0] == LBRACK,
            !(data@.len() >= 2 && data@[1] == RBRACK),
            forall|k: int| 0 <= k < acc@.len() ==> #[trigger] acc@[k].last_heartbeat == 0,
            parse_peer_entries(data@.skip(1)) == (match parse_peer_entries(data@.skip(j as int)) {
                Some(p) => Some((peer_infos_view(acc@) + p.0, p.1)),
                None => None::<(Seq<(Seq<char>, Seq<char>, u16)>, Seq<u8>)>,
            }),
        decreases len - j,
    {
        let (p, j1) = match parse_peer_entry_at(data, j) {
            Some(q) => q,
            None => {
                proof {
                    assert(parse_peer_entries(data@.skip(1)) is None);
                    assert(parse_peer_list(data@) is None);
                }
                return None;
            },
        };
        let ghost pe = (p.user_id@, p.address@, p.port);
        let ghost accv = peer_infos_view(acc@);
        acc.push(p);
        proof {
            assert(peer_infos_view(acc@) =~= accv.push(pe));
        }
        if j1 < len && data[j1] == COMMA {
            proof {
                assert(data@.skip(j1 as int)[0] == data@[j1 as int]);
                assert(data@.skip(j1 as int).skip(1) =~= data@.skip(j1 as int + 1));
                assert(data@.skip(j1 as int).len() < data@.skip(j as int).len());
                assert(forall|es: Seq<(Seq<char>, Seq<char>, u16)>|
                    (accv + (seq![pe] + es)) =~= (accv.push(pe) + es));
            }
            j = j1 + 1;
        } else {
            proof {
                if j1 < data@.len() {
                    assert(data@.skip(j1 as int)[0] == data@[j1 as int]);
                } else {
                    assert(data@.skip(j1 as int).len() == 0);
                }
                assert(data@.skip(j1 as int).len() < data@.skip(j as int).len());
                assert(accv + seq![pe] =~= accv.push(pe));
            }
            // end of the entries: expect the closing bracket and the end
            if j1 == len {
                return None;
            }
            proof {
                assert(data@.skip(j1 as int)[0] == data@[j1 as int]);
                assert(data@.skip(j1 as int).skip(1) =~= data@.skip(j1 as int + 1));
            }
            if data[j1] != RBRACK {
                proof {
                    assert(parse_peer_entries(data@.skip(j as int)) == Some(
                        (seq![pe], data@.skip(j1 as int)),
                    ));
                    assert(parse_peer_entries(data@.skip(1)) is Some);
                    assert(parse_peer_list(data@) is None);
                    assert(decode_peer_list_bytes(data@) is None);
                }
                return None;
            }
            if j1 + 1 != len {
                proof {
                    assert(data@.skip(j1 as int + 1).len() > 0);
                }
                return None;
            }
            proof {
                assert(data@.skip(j1 as int + 1).len() == 0);
            }
            return Some(acc);
        }
    }
}

/// The content of a connect response: the host, a comma, the port digits.
pub open spec fn host_port_bytes(addr: Seq<char>, port: u16) -> Seq<u8> {
    encode_utf8(addr) + seq![COMMA] + dec_digits(port as nat)
}

/// The index of the last occurrence of `b` in `s`.
pub open spec fn find_last(s: Seq<u8>, b: u8) -> Option<int>
    decreases s.len(),
{
    if s.len() == 0 {
        None
    } else if s[s.len() - 1] == b {
        Some(s.len() - 1)
    } else {
        find_last(s.take(s.len() - 1), b)
    }
}

/// The exact meaning of the host-port parser: split at the last comma, the
/// left part must be well-formed text, the right part a port number that
/// the digits fill exactly.
pub open spec fn parse_host_port(s: Seq<u8>) -> Option<(Seq<char>, u16)> {
    match find_last(s, COMMA) {
        None => None,
        Some(ci) => {
            let ab = s.take(ci);
            let pb = s.skip(ci + 1);
            if !valid_utf8(ab) {
                None
            } else {
                match parse_dec(pb) {
                    None => None,
                    Some((v, rest)) => if rest.len() == 0 && v <= 0xffff {
                        Some((decode_utf8(ab), v as u16))
                    } else {
                        None
                    },
                }
            }
        },
    }
}

/// Builds the connect-response content `host,port`. Always succeeds; the
/// string's UTF-8 bytes are exactly `host_port_bytes`.
pub fn host_port_content(address: &str, port: u16) -> (r: String)
    ensures
        encode_utf8(r@) == host_port_bytes(address@, port),
{
    broadcast use encode_utf8_valid_utf8;

    let mut out: Vec<u8> = Vec::new();
    push_bytes(&mut out, address.as_bytes());
    out.push(COMMA);
    enc_u64(&mut out, port as u64);
    proof {
        assert(out@ =~= host_port_bytes(address@, port));
        lemma_dec_digits_are_digits(port as nat);
        lemma_ascii_valid_utf8(seq![COMMA] + dec_digits(port as nat));
        valid_utf8_concat(encode_utf8(address@), seq![COMMA] + dec_digits(port as nat));
        assert(encode_utf8(address@) + (seq![COMMA] + dec_digits(port as nat)) =~= out@);
    }
    let ghost encoded = out@;
    match bytes_to_string(out) {
        Some(s) => {
            proof {
                decode_utf8_encode_utf8(encoded);
            }
            s
        },
        None => {
            proof {
                assert(false);
            }
            String::new()
        },
    }
}

/// Copies `data[i..j]` out as a vector.
fn bytes_range(data: &[u8], i: usize, j: usize) -> (r: Vec<u8>)
    requires
        i <= j <= data@.len(),
    ensures
        r@ == data@.subrange(i as int, j as int),
{
    let mut out: Vec<u8> = Vec::new();
    let mut k: usize = i;
    while k < j
        invariant
            i <= k <= j <= data@.len(),
            out@ == data@.subrange(i as int, k as int),
        decreases j - k,
    {
        out.push(data[k]);
        proof {
            assert(data@.subrange(i as int, k as int).push(data@[k as int]) =~= data@.subrange(
                i as int,
                k as int + 1,
            ));
        }
        k = k + 1;
    }
    out
}

/// The position of the last comma in `data`, exactly as `find_last`.
fn find_last_comma(data: &[u8]) -> (r: Option<usize>)
    ensures
        match r {
            Some(ci) => ci < data@.len() && find_last(data@, COMMA) == Some(ci as int),
            None => find_last(data@, COMMA) is None,
        },
{
    let len = data.len();
    let mut k: usize = len;
    proof {
        assert(data@.take(len as int) =~= data@);
    }
    loop
        invariant
            k <= len,
            len == data@.len(),
            find_last(data@, COMMA) == find_last(data@.take(k as int), COMMA),
        decreases k,
    {
        if k == 0 {
            proof {
                assert(data@.take(0).len() == 0);
            }
            return None;
        }
        proof {
            assert(data@.take(k as int)[k - 1] == data@[k - 1]);
            assert(data@.take(k as int).take(k as int - 1) =~= data@.take(k as int - 1));
        }
        if data[k - 1] == COMMA {
            return Some(k - 1);
        }
        k = k - 1;
    }
}

/// Parses a `host,port` content string, exactly as `parse_host_port`
/// describes on its UTF-8 bytes.
pub fn parse_host_port_content(content: &str) -> (r: Option<(String, u16)>)
    ensures
        match r {
            Some(p) => parse_host_port(encode_utf8(content@)) == Some((p.0@, p.1)),
            None => parse_host_port(encode_utf8(content@)) is None,
        },
{
    let data = content.as_bytes();
    let len = data.len();
    let ci = match find_last_comma(data) {
        Some(c) => c,
        None => {
            return None;
        },
    };
    proof {
        assert(find_last(data@, COMMA) == Some(ci as int));
    }
    let ab = bytes_range(data, 0, ci);
    proof {
        assert(ab@ =~= data@.take(ci as int));
    }
    let addr = match bytes_to_string(ab) {
        Some(s) => s,
        None => {
            return None;
        },
    };
    let (v, j) = match parse_u64_at(data, ci + 1) {
        Some(p) => p,
        None => {
            return None;
        },
    };
    if !(j == len && v <= 0xffff) {
        proof {
            assert(j < len ==> data@.skip(j as int).len() > 0);
        }
        return None;
    }
    proof {
        assert(data@.skip(j as int).len() == 0);
    }
    Some((addr, v as u16))
}

} // verus!
