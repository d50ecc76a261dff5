//! Facts connecting the byte-level escape layer with UTF-8: escaping keeps
//! a valid UTF-8 sequence valid (it only rewrites ASCII bytes into ASCII
//! escapes), and `encode_utf8` distributes over concatenation.

use vstd::prelude::*;
use vstd::utf8::*;

verus! {

use crate::escape::{escape_bytes, escape_byte, lemma_escape_bytes_concat, QUOTE, BACKSLASH};

pub proof fn lemma_encode_utf8_concat(a: Seq<char>, b: Seq<char>)
    ensures
        encode_utf8(a + b) == encode_utf8(a) + encode_utf8(b),
    decreases a.len(),
{
    if a.len() == 0 {
        assert(a + b =~= b);
        assert(encode_utf8(a) + encode_utf8(b) =~= encode_utf8(b));
    } else {
        assert((a + b)[0] == a[0]);
        assert((a + b).drop_first() =~= a.drop_first() + b);
        lemma_encode_utf8_concat(a.drop_first(), b);
        assert(encode_scalar(a[0] as u32) + (encode_utf8(a.drop_first()) + encode_utf8(b)) =~= (
        encode_scalar(a[0] as u32) + encode_utf8(a.drop_first())) + encode_utf8(b));
    }
}

/// A sequence of bytes below 0x80 is valid UTF-8 on its own.
pub proof fn lemma_ascii_valid_utf8(s: Seq<u8>)
    ensures
        (forall|i: int| 0 <= i < s.len() ==> #[trigger] s[i] < 0x80) ==> valid_utf8(s),
{
    if forall|i: int| 0 <= i < s.len() ==> #[trigger] s[i] < 0x80 {
        assert(forall|i: int| 0 <= i < s.len() ==> #[trigger] is_leading_byte_width_1(s[i]));
        assert(valid_utf8(s.subrange(0, 0)));
        assert(partial_valid_utf8(s, 0));
        partial_valid_utf8_extend_ascii_block(s, 0, s.len() as int);
        assert(s.subrange(0, s.len() as int) =~= s);
    }
}

/// A sequence whose bytes all lie at or above 0x20 and avoid the quote and
/// backslash passes through escaping unchanged.
pub proof fn lemma_escape_bytes_plain(s: Seq<u8>)
    requires
        forall|i: int|
            0 <= i < s.len() ==> #[trigger] s[i] >= 0x20 && s[i] != QUOTE && s[i] != BACKSLASH,
    ensures
        escape_bytes(s) == s,
    decreases s.len(),
{
    if s.len() > 0 {
        lemma_escape_bytes_plain(s.skip(1));
        assert(escape_byte(s[0]) =~= seq![s[0]]);
        assert(seq![s[0]] + s.skip(1) =~= s);
    }
}

proof fn lemma_take_first_scalar_valid(bytes: Seq<u8>)
    requires
        valid_utf8(bytes),
        bytes.len() > 0,
    ensures
        valid_utf8(take_first_scalar(bytes)),
{
    reveal_with_fuel(valid_utf8, 2);
}

/// Escaping a valid UTF-8 sequence yields a valid UTF-8 sequence: ASCII
/// bytes become ASCII escapes and multi-byte encodings pass through whole.
pub proof fn lemma_escape_preserves_valid_utf8(s: Seq<u8>)
    requires
        valid_utf8(s),
    ensures
        valid_utf8(escape_bytes(s)),
    decreases s.len(),
{
    if s.len() > 0 {
        let head = take_first_scalar(s);
        let tail = pop_first_scalar(s);
        let k = length_of_first_scalar(s);
        assert(1 <= k <= s.len());
        assert(head + tail =~= s);
        lemma_take_first_scalar_valid(s);
        lemma_escape_preserves_valid_utf8(tail);
        lemma_escape_bytes_concat(head, tail);
        assert(escape_bytes(s) == escape_bytes(head) + escape_bytes(tail));
        if is_leading_byte_width_1(s[0]) {
            // a one-byte scalar: its escape is a short ASCII sequence
            assert(head =~= seq![s[0]]);
            assert(escape_bytes(head) =~= escape_byte(s[0]));
            let e = escape_byte(s[0]);
            assert(forall|i: int| 0 <= i < e.len() ==> #[trigger] e[i] < 0x80);
            lemma_ascii_valid_utf8(e);
        } else {
            // a multi-byte scalar: every byte is 0x80 or above, so escaping
            // leaves the encoding intact
            assert(forall|i: int|
                0 <= i < head.len()
                    ==> #[trigger] head[i] >= 0x20 && head[i] != QUOTE && head[i] != BACKSLASH);
            lemma_escape_bytes_plain(head);
        }
        valid_utf8_concat(escape_bytes(head), escape_bytes(tail));
    }
}

} // verus!
