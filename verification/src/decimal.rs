//! Decimal rendering and parsing of unsigned integers, as they appear in
//! wire frames. `dec_digits` is the canonical (no leading zero) form; the
//! parser reads a maximal digit run and refuses values above `u64::MAX`.

use vstd::prelude::*;

verus! {

pub open spec fn is_digit(b: u8) -> bool {
    0x30 <= b && b <= 0x39
}

pub open spec fn digit_val(b: u8) -> u64
    recommends
        is_digit(b),
{
    (b - 0x30) as u64
}

/// The canonical decimal digits of `n`, most significant first.
pub open spec fn dec_digits(n: nat) -> Seq<u8>
    decreases n,
{
    if n < 10 {
        seq![(0x30 + n) as u8]
    } else {
        dec_digits(n / 10).push((0x30 + n % 10) as u8)
    }
}

pub open spec fn pow10(k: nat) -> nat
    decreases k,
{
    if k == 0 {
        1
    } else {
        10 * pow10((k - 1) as nat)
    }
}

/// Reads digits from the front of `s` into `acc`; stops at the first
/// non-digit; refuses a run whose value does not fit in a `u64`.
pub open spec fn parse_dec_loop(s: Seq<u8>, acc: u64) -> Option<(u64, Seq<u8>)>
    decreases s.len(),
{
    if s.len() == 0 || !is_digit(s[0]) {
        Some((acc, s))
    } else if acc > (u64::MAX - digit_val(s[0])) / 10 {
        None
    } else {
        parse_dec_loop(s.skip(1), (acc * 10 + digit_val(s[0])) as u64)
    }
}

/// A decimal number at the front of `s`: at least one digit, value in `u64`.
pub open spec fn parse_dec(s: Seq<u8>) -> Option<(u64, Seq<u8>)> {
    if s.len() == 0 || !is_digit(s[0]) {
        None
    } else {
        parse_dec_loop(s, 0)
    }
}

pub proof fn lemma_dec_digits_are_digits(n: nat)
    ensures
        dec_digits(n).len() >= 1,
        forall|i: int| 0 <= i < dec_digits(n).len() ==> is_digit(#[trigger] dec_digits(n)[i]),
    decreases n,
{
    if n >= 10 {
        lemma_dec_digits_are_digits(n / 10);
    }
}

proof fn lemma_le_div10(a: nat, x: nat)
    ensures
        a <= x / 10 <==> 10 * a <= x,
{
    assert(a <= x / 10 <==> 10 * a <= x) by (nonlinear_arith);
}

proof fn lemma_parse_dec_loop_digits(n: u64, rest: Seq<u8>, acc: u64)
    requires
        acc * pow10(dec_digits(n as nat).len()) + n <= u64::MAX,
    ensures
        parse_dec_loop(dec_digits(n as nat) + rest, acc) == parse_dec_loop(
            rest,
            (acc * pow10(dec_digits(n as nat).len()) + n) as u64,
        ),
    decreases n,
{
    let ghost ds = dec_digits(n as nat);
    lemma_dec_digits_are_digits(n as nat);
    if n < 10 {
        let s = ds + rest;
        assert(s[0] == (0x30 + n) as u8);
        assert(is_digit(s[0]));
        assert(digit_val(s[0]) == n);
        assert(pow10(0) == 1);
        assert(pow10(1) == 10);
        // no overflow on this step
        lemma_le_div10(acc as nat, (u64::MAX - n) as nat);
        assert(10 * acc <= u64::MAX - n);
        assert(!(acc > (u64::MAX - digit_val(s[0])) / 10));
        assert(s.skip(1) =~= rest);
    } else {
        let m = n / 10;
        let d = n % 10;
        let dm = dec_digits(m as nat);
        assert(ds == dm.push((0x30 + n % 10) as u8));
        let mid = seq![(0x30 + n % 10) as u8] + rest;
        assert(ds + rest =~= dm + mid);
        let lm = dm.len();
        assert(ds.len() == lm + 1);
        assert(pow10(lm + 1) == 10 * pow10(lm));
        // the value accumulated after the leading digits of n
        assert(m < n) by (nonlinear_arith)
            requires
                n >= 10,
                m == n / 10,
        ;
        assert(n == 10 * m + d) by (nonlinear_arith)
            requires
                m == n / 10,
                d == n % 10,
                n >= 0,
        ;
        assert((acc * pow10(lm) + m) * 10 + d == acc * (10 * pow10(lm)) + n) by (nonlinear_arith)
            requires
                n == 10 * m + d,
        ;
        assert(acc * pow10(lm) + m <= u64::MAX);
        lemma_parse_dec_loop_digits(m, mid, acc);
        let acc2 = (acc * pow10(lm) + m) as u64;
        assert(parse_dec_loop(ds + rest, acc) == parse_dec_loop(mid, acc2));
        // one more step consumes the last digit of n
        assert(mid[0] == (0x30 + d) as u8);
        assert(is_digit(mid[0]));
        assert(digit_val(mid[0]) == d);
        lemma_le_div10(acc2 as nat, (u64::MAX - d) as nat);
        assert(10 * acc2 <= u64::MAX - d);
        assert(!(acc2 > (u64::MAX - digit_val(mid[0])) / 10));
        assert(mid.skip(1) =~= rest);
        assert(acc2 * 10 + d == acc * pow10(ds.len()) + n);
    }
}

/// Parsing inverts rendering: a canonical number followed by anything that
/// does not begin with a digit parses back to the same value.
pub proof fn lemma_parse_dec_complete(n: u64, rest: Seq<u8>)
    requires
        rest.len() == 0 || !is_digit(rest[0]),
    ensures
        parse_dec(dec_digits(n as nat) + rest) == Some((n, rest)),
{
    let ghost ds = dec_digits(n as nat);
    lemma_dec_digits_are_digits(n as nat);
    assert((ds + rest)[0] == ds[0]);
    assert(0 * pow10(ds.len()) + n <= u64::MAX) by (nonlinear_arith);
    lemma_parse_dec_loop_digits(n, rest, 0);
    assert(0 * pow10(ds.len()) + n == n) by (nonlinear_arith);
}

/// Appends the canonical decimal digits of `n` to `out`.
pub fn enc_u64(out: &mut Vec<u8>, n: u64)
    ensures
        final(out)@ == old(out)@ + dec_digits(n as nat),
    decreases n,
{
    if n < 10 {
        out.push(0x30 + n as u8);
        proof {
            assert(out@ =~= old(out)@ + dec_digits(n as nat));
        }
    } else {
        enc_u64(out, n / 10);
        out.push(0x30 + (n % 10) as u8);
        proof {
            assert(out@ =~= old(out)@ + dec_digits(n as nat));
        }
    }
}

/// Reads a decimal number from `data` at position `i`, exactly as
/// `parse_dec` describes; on success the second component is the position
/// just past the digits.
pub fn parse_u64_at(data: &[u8], i: usize) -> (r: Option<(u64, usize)>)
    requires
        i <= data@.len(),
    ensures
        match r {
            Some(p) => i < p.1 <= data@.len() && parse_dec(data@.skip(i as int)) == Some(
                (p.0, data@.skip(p.1 as int)),
            ),
            None => parse_dec(data@.skip(i as int)) is None,
        },
{
    let len = data.len();
    if i == len {
        return None;
    }
    proof {
        assert(data@.skip(i as int)[0] == data@[i as int]);
    }
    if !(0x30 <= data[i] && data[i] <= 0x39) {
        return None;
    }
    let d0 = (data[i] - 0x30) as u64;
    let mut j: usize = i + 1;
    let mut acc: u64 = d0;
    proof {
        assert(!(0u64 > (u64::MAX - d0) / 10));
        assert(data@.skip(i as int).skip(1) =~= data@.skip(i as int + 1));
        assert(parse_dec_loop(data@.skip(i as int), 0) == parse_dec_loop(
            data@.skip(j as int),
            acc,
        ));
    }
    loop
        invariant
            i < j <= len,
            len == data@.len(),
            parse_dec_loop(data@.skip(i as int), 0) == parse_dec_loop(data@.skip(j as int), acc),
            is_digit(data@[i as int]),
        decreases len - j,
    {
        if j == len {
            proof {
                assert(data@.skip(i as int)[0] == data@[i as int]);
                assert(data@.skip(j as int).len() == 0);
            }
            return Some((acc, j));
        }
        let b = data[j];
        if !(0x30 <= b && b <= 0x39) {
            proof {
                assert(data@.skip(i as int)[0] == data@[i as int]);
                assert(data@.skip(j as int)[0] == b);
            }
            return Some((acc, j));
        }
        let d = (b - 0x30) as u64;
        proof {
            assert(data@.skip(j as int)[0] == b);
        }
        if acc > (u64::MAX - d) / 10 {
            return None;
        }
        proof {
            assert(data@.skip(j as int).skip(1) =~= data@.skip(j as int + 1));
        }
        acc = acc * 10 + d;
        j = j + 1;
    }
}

} // verus!
