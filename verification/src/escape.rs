//! JSON string escaping at the byte level, and the matching parser for a
//! quoted string body. Escaping replaces `"` and `\` by two-byte escapes and
//! every byte below 0x20 by a six-byte `\u00xy` escape; all other bytes pass
//! through unchanged, which keeps multi-byte UTF-8 sequences intact.

use vstd::prelude::*;

verus! {

pub const QUOTE: u8 = 0x22;

pub const BACKSLASH: u8 = 0x5c;

pub open spec fn hex_digit(n: u8) -> u8
    recommends
        n < 16,
{
    if n < 10 {
        (0x30 + n) as u8
    } else {
        (0x57 + n) as u8
    }
}

pub open spec fn is_hex_lower(b: u8) -> bool {
    (0x30 <= b && b <= 0x39) || (0x61 <= b && b <= 0x66)
}

pub open spec fn hex_val(b: u8) -> u8
    recommends
        is_hex_lower(b),
{
    if b <= 0x39 {
        (b - 0x30) as u8
    } else {
        (b - 0x57) as u8
    }
}

pub open spec fn escape_byte(b: u8) -> Seq<u8> {
    if b == QUOTE {
        seq![BACKSLASH, QUOTE]
    } else if b == BACKSLASH {
        seq![BACKSLASH, BACKSLASH]
    } else if b < 0x20 {
        seq![BACKSLASH, 0x75u8, 0x30u8, 0x30u8, hex_digit(b / 16), hex_digit(b % 16)]
    } else {
        seq![b]
    }
}

pub open spec fn escape_bytes(s: Seq<u8>) -> Seq<u8>
    decreases s.len(),
{
    if s.len() == 0 {
        Seq::empty()
    } else {
        escape_byte(s[0]) + escape_bytes(s.skip(1))
    }
}

/// The body of a quoted string: everything up to an unescaped closing quote,
/// with escapes undone. Returns the content bytes and the remainder after
/// the closing quote.
pub open spec fn parse_string_body(s: Seq<u8>) -> Option<(Seq<u8>, Seq<u8>)>
    decreases s.len(),
{
    if s.len() == 0 {
        None
    } else if s[0] == QUOTE {
        Some((Seq::empty(), s.skip(1)))
    } else if s[0] == BACKSLASH {
        if s.len() < 2 {
            None
        } else if s[1] == QUOTE || s[1] == BACKSLASH {
            match parse_string_body(s.skip(2)) {
                Some(p) => Some((seq![s[1]] + p.0, p.1)),
                None => None,
            }
        } else if s[1] == 0x75 && s.len() >= 6 && s[2] == 0x30 && s[3] == 0x30 && is_hex_lower(
            s[4],
        ) && is_hex_lower(s[5]) {
            match parse_string_body(s.skip(6)) {
                Some(p) => Some((seq![(hex_val(s[4]) * 16 + hex_val(s[5])) as u8] + p.0, p.1)),
                None => None,
            }
        } else {
            None
        }
    } else {
        match parse_string_body(s.skip(1)) {
            Some(p) => Some((seq![s[0]] + p.0, p.1)),
            None => None,
        }
    }
}

pub proof fn lemma_escape_bytes_concat(a: Seq<u8>, b: Seq<u8>)
    ensures
        escape_bytes(a + b) == escape_bytes(a) + escape_bytes(b),
    decreases a.len(),
{
    if a.len() == 0 {
        assert(a + b =~= b);
        assert(escape_bytes(a) + escape_bytes(b) =~= escape_bytes(b));
    } else {
        assert((a + b)[0] == a[0]);
        assert((a + b).skip(1) =~= a.skip(1) + b);
        lemma_escape_bytes_concat(a.skip(1), b);
        assert(escape_byte(a[0]) + (escape_bytes(a.skip(1)) + escape_bytes(b)) =~= (escape_byte(
            a[0],
        ) + escape_bytes(a.skip(1))) + escape_bytes(b));
    }
}

/// Every byte an escape sequence can produce: printable ASCII or a byte at
/// or above 0x20. In particular the frame delimiter 0x0a never appears.
pub proof fn lemma_escape_bytes_no_control(s: Seq<u8>)
    ensures
        forall|i: int| 0 <= i < escape_bytes(s).len() ==> #[trigger] escape_bytes(s)[i] >= 0x20,
    decreases s.len(),
{
    if s.len() > 0 {
        lemma_escape_bytes_no_control(s.skip(1));
        let e = escape_byte(s[0]);
        let t = escape_bytes(s.skip(1));
        assert(forall|i: int| 0 <= i < e.len() ==> #[trigger] e[i] >= 0x20);
        assert(forall|i: int|
            0 <= i < escape_bytes(s).len() ==> escape_bytes(s)[i] == if i < e.len() {
                e[i]
            } else {
                t[i - e.len()]
            });
    }
}

/// Parsing a string body inverts escaping: the escaped content, a closing
/// quote, then anything, parses back to the content and that remainder.
pub proof fn lemma_parse_string_body_complete(x: Seq<u8>, rest: Seq<u8>)
    ensures
        parse_string_body(escape_bytes(x) + seq![QUOTE] + rest) == Some((x, rest)),
    decreases x.len(),
{
    let s = escape_bytes(x) + seq![QUOTE] + rest;
    if x.len() == 0 {
        assert(escape_bytes(x) =~= Seq::<u8>::empty());
        assert(s =~= seq![QUOTE] + rest);
        assert(s[0] == QUOTE);
        assert(s.skip(1) =~= rest);
    } else {
        let b = x[0];
        let e = escape_byte(b);
        let tail = escape_bytes(x.skip(1)) + seq![QUOTE] + rest;
        assert(escape_bytes(x) == e + escape_bytes(x.skip(1)));
        assert(s =~= e + tail);
        lemma_parse_string_body_complete(x.skip(1), rest);
        if b == QUOTE || b == BACKSLASH {
            assert(s[0] == BACKSLASH);
            assert(s[1] == b);
            assert(s.len() >= 2);
            assert(s.skip(2) =~= tail);
            assert(seq![b] + x.skip(1) =~= x);
        } else if b < 0x20 {
            assert(s[0] == BACKSLASH);
            assert(s[1] == 0x75);
            assert(s[2] == 0x30);
            assert(s[3] == 0x30);
            assert(s[4] == hex_digit(b / 16));
            assert(s[5] == hex_digit(b % 16));
            assert(s.len() >= 6);
            assert(b / 16 < 2);
            assert(is_hex_lower(hex_digit(b / 16)));
            assert(is_hex_lower(hex_digit(b % 16)));
            assert(hex_val(hex_digit(b / 16)) == b / 16);
            assert(hex_val(hex_digit(b % 16)) == b % 16);
            assert((b / 16) * 16 + b % 16 == b);
            assert(s.skip(6) =~= tail);
            assert(seq![b] + x.skip(1) =~= x);
        } else {
            assert(s[0] == b);
            assert(b != QUOTE && b != BACKSLASH);
            assert(s.skip(1) =~= tail);
            assert(seq![b] + x.skip(1) =~= x);
        }
    }
}

/// Appends the escaped form of `s` to `out`.
pub fn escape_into(out: &mut Vec<u8>, s: &[u8])
    ensures
        final(out)@ == old(out)@ + escape_bytes(s@),
{
    let len = s.len();
    let mut i: usize = 0;
    proof {
        assert(s@.skip(0) =~= s@);
    }
    while i < len
        invariant
            i <= len,
            len == s@.len(),
            out@ + escape_bytes(s@.skip(i as int)) == old(out)@ + escape_bytes(s@),
        decreases len - i,
    {
        let b = s[i];
        proof {
            assert(s@.skip(i as int)[0] == b);
            assert(s@.skip(i as int).skip(1) =~= s@.skip(i as int + 1));
            assert(escape_bytes(s@.skip(i as int)) == escape_byte(b) + escape_bytes(
                s@.skip(i as int + 1),
            ));
        }
        let ghost pre = out@;
        if b == QUOTE || b == BACKSLASH {
            out.push(BACKSLASH);
            out.push(b);
            proof {
                assert(out@ =~= pre + escape_byte(b));
            }
        } else if b < 0x20 {
            out.push(BACKSLASH);
            out.push(0x75);
            out.push(0x30);
            out.push(0x30);
            let hi = b / 16;
            let lo = b % 16;
            out.push(if hi < 10 { 0x30 + hi } else { 0x57 + hi });
            out.push(if lo < 10 { 0x30 + lo } else { 0x57 + lo });
            proof {
                assert(out@ =~= pre + escape_byte(b));
            }
        } else {
            out.push(b);
            proof {
                assert(out@ =~= pre + escape_byte(b));
            }
        }
        proof {
            assert(out@ + escape_bytes(s@.skip(i as int + 1)) =~= pre + escape_bytes(
                s@.skip(i as int),
            ));
        }
        i = i + 1;
    }
    proof {
        assert(s@.skip(len as int) =~= Seq::<u8>::empty());
        assert(out@ + escape_bytes(s@.skip(len as int)) =~= out@);
    }
}

/// Reads a quoted-string body from `data` at position `i` (the opening
/// quote has already been consumed), exactly as `parse_string_body`
/// describes; on success the second component is the position just past the
/// closing quote.
pub fn parse_string_at(data: &[u8], i: usize) -> (r: Option<(Vec<u8>, usize)>)
    requires
        i <= data@.len(),
    ensures
        match r {
            Some(p) => i < p.1 <= data@.len() && parse_string_body(data@.skip(i as int)) == Some(
                (p.0@, data@.skip(p.1 as int)),
            ),
            None => parse_string_body(data@.skip(i as int)) is None,
        },
{
    let len = data.len();
    let mut j: usize = i;
    let mut acc: Vec<u8> = Vec::new();
    loop
        invariant
            i <= j <= len,
            len == data@.len(),
            parse_string_body(data@.skip(i as int)) == (match parse_string_body(
                data@.skip(j as int),
            ) {
                Some(p) => Some((acc@ + p.0, p.1)),
                None => None::<(Seq<u8>, Seq<u8>)>,
            }),
        decreases len - j,
    {
        if j == len {
            return None;
        }
        let b = data[j];
        proof {
            assert(data@.skip(j as int)[0] == b);
        }
        if b == QUOTE {
            proof {
                assert(data@.skip(j as int).skip(1) =~= data@.skip(j as int + 1));
                assert(acc@ + Seq::<u8>::empty() =~= acc@);
            }
            return Some((acc, j + 1));
        }
        let ghost pre = acc@;
        if b == BACKSLASH {
            if j + 1 == len {
                proof {
                    assert(data@.skip(j as int).len() < 2);
                }
                return None;
            }
            let b2 = data[j + 1];
            proof {
                assert(data@.skip(j as int)[1] == b2);
            }
            if b2 == QUOTE || b2 == BACKSLASH {
                acc.push(b2);
                proof {
                    assert(data@.skip(j as int).skip(2) =~= data@.skip(j as int + 2));
                    assert(forall|t: Seq<u8>| (pre + seq![b2]) + t =~= pre + (seq![b2] + t));
                }
                j = j + 2;
            } else if b2 == 0x75 && len - j >= 6 {
                let h1 = data[j + 4];
                let h2 = data[j + 5];
                proof {
                    assert(data@.skip(j as int).len() >= 6);
                    assert(data@.skip(j as int)[2] == data@[j as int + 2]);
                    assert(data@.skip(j as int)[3] == data@[j as int + 3]);
                    assert(data@.skip(j as int)[4] == h1);
                    assert(data@.skip(j as int)[5] == h2);
                }
                if !(data[j + 2] == 0x30 && data[j + 3] == 0x30) {
                    return None;
                }
                let ok1 = (0x30 <= h1 && h1 <= 0x39) || (0x61 <= h1 && h1 <= 0x66);
                let ok2 = (0x30 <= h2 && h2 <= 0x39) || (0x61 <= h2 && h2 <= 0x66);
                if !(ok1 && ok2) {
                    return None;
                }
                let v1 = if h1 <= 0x39 { h1 - 0x30 } else { h1 - 0x57 };
                let v2 = if h2 <= 0x39 { h2 - 0x30 } else { h2 - 0x57 };
                let v = v1 * 16 + v2;
                acc.push(v);
                proof {
                    assert(data@.skip(j as int).skip(6) =~= data@.skip(j as int + 6));
                    assert(forall|t: Seq<u8>| (pre + seq![v]) + t =~= pre + (seq![v] + t));
                }
                j = j + 6;
            } else {
                proof {
                    assert(data@.skip(j as int).len() >= 6 ==> data@.skip(j as int).len() > 5);
                }
                return None;
            }
        } else {
            acc.push(b);
            proof {
                assert(data@.skip(j as int).skip(1) =~= data@.skip(j as int + 1));
                assert(forall|t: Seq<u8>| (pre + seq![b]) + t =~= pre + (seq![b] + t));
            }
            j = j + 1;
        }
    }
}

} // verus!
