//! Decimal rendering and parsing of the numeric fields that appear in
//! rendered rows and in the text-backend line format.

use vstd::prelude::*;
use vstd::utf8::{
    valid_utf8, decode_utf8, is_leading_byte_width_1, codepoint_width_1, pop_first_scalar,
    length_of_first_scalar, valid_first_scalar,
};
use crate::codec::lossy_string;

verus! {

/// The ASCII bytes of `n` written in decimal, most significant digit
/// first, with no sign and no leading zero (a single `0` for zero).
pub open spec fn dec_bytes(n: int) -> Seq<u8>
    recommends
        n >= 0,
    decreases n,
{
    if n < 10 {
        seq![(48 + if n >= 0 {
            n
        } else {
            0
        }) as u8]
    } else {
        dec_bytes(n / 10).push((48 + n % 10) as u8)
    }
}

/// The characters of `n` written in decimal.
pub open spec fn dec_text(n: int) -> Seq<char> {
    dec_bytes(n).map_values(|b: u8| b as char)
}

pub proof fn lemma_dec_bytes_ascii(n: int)
    requires
        n >= 0,
    ensures
        dec_bytes(n).len() >= 1,
        forall|i: int| 0 <= i < dec_bytes(n).len() ==> 48 <= #[trigger] dec_bytes(n)[i] <= 57,
    decreases n,
{
    if n >= 10 {
        lemma_dec_bytes_ascii(n / 10);
    }
}

/// A sequence of bytes that are all ASCII decodes to exactly those bytes
/// read as characters.
pub proof fn lemma_decode_ascii(b: Seq<u8>)
    requires
        forall|i: int| 0 <= i < b.len() ==> #[trigger] b[i] < 128,
    ensures
        valid_utf8(b),
        decode_utf8(b) == Seq::new(b.len(), |i: int| b[i] as char),
    decreases b.len(),
{
    if b.len() > 0 {
        let c = b[0];
        assert(is_leading_byte_width_1(c));
        assert(c & 0x7F == c) by (bit_vector)
            requires
                c < 128,
        ;
        assert(codepoint_width_1(c) == c as u32);
        assert(valid_first_scalar(b));
        assert(length_of_first_scalar(b) == 1);
        let t = pop_first_scalar(b);
        assert(t =~= b.drop_first());
        assert forall|i: int| 0 <= i < t.len() implies #[trigger] t[i] < 128 by {
            assert(t[i] == b[i + 1]);
        }
        lemma_decode_ascii(t);
        assert(decode_utf8(b) =~= Seq::new(b.len(), |i: int| b[i] as char));
    } else {
        assert(decode_utf8(b) =~= Seq::new(b.len(), |i: int| b[i] as char));
    }
}

/// Render `n` in decimal.
pub fn fmt_u32(n: u32) -> (r: String)
    ensures
        r@ == dec_text(n as int),
{
    let mut buf: Vec<u8> = Vec::new();
    if n == 0 {
        buf.push(48);
        assert(buf@ =~= dec_bytes(0));
    } else {
        let mut m: u32 = n;
        assert(dec_bytes(n as int) =~= dec_bytes(n as int) + buf@);
        while m > 0
            invariant
                0 <= m <= n,
                m > 0 ==> dec_bytes(n as int) == dec_bytes(m as int) + buf@,
                m == 0 ==> dec_bytes(n as int) == buf@,
                n > 0,
            decreases m,
        {
            let d: u8 = (m % 10) as u8 + 48;
            let next = m / 10;
            proof {
                assert(d == (48 + m as int % 10) as u8);
                if next > 0 {
                    assert(dec_bytes(m as int) == dec_bytes(m as int / 10).push(
                        (48 + m as int % 10) as u8,
                    ));
                    assert(dec_bytes(m as int / 10) + (buf@.insert(0, d)) =~= dec_bytes(
                        m as int,
                    ) + buf@);
                } else {
                    assert(m < 10);
                    assert(dec_bytes(m as int) =~= seq![d]);
                    assert(seq![d] + buf@ =~= buf@.insert(0, d));
                }
            }
            buf.insert(0, d);
            m = next;
        }
    }
    proof {
        lemma_dec_bytes_ascii(n as int);
        lemma_decode_ascii(buf@);
        assert(Seq::new(buf@.len(), |i: int| buf@[i] as char) =~= dec_text(n as int));
    }
    lossy_string(buf.as_slice())
}

/// Rendering a number in decimal yields a non-empty all-digit text that
/// denotes exactly that number.
pub proof fn lemma_dec_text_value(n: int)
    requires
        0 <= n,
    ensures
        dec_text(n).len() >= 1,
        all_digits(dec_text(n)),
        dec_value(dec_text(n)) == n,
    decreases n,
{
    lemma_dec_bytes_ascii(n);
    assert forall|i: int| 0 <= i < dec_text(n).len() implies is_digit(#[trigger] dec_text(n)[i]) by {
        assert(dec_text(n)[i] == dec_bytes(n)[i] as char);
        assert(48 <= dec_bytes(n)[i] <= 57);
    }
    if n < 10 {
        assert(dec_bytes(n) == seq![(48 + n) as u8]);
        assert(dec_text(n).len() == 1);
        assert(dec_text(n).last() == (48 + n) as u8 as char);
        assert(dec_text(n).drop_last() =~= Seq::<char>::empty());
        assert(dec_value(Seq::<char>::empty()) == 0);
        assert(dec_value(dec_text(n)) == 10 * dec_value(dec_text(n).drop_last()) + (dec_text(
            n,
        ).last() as int - 48));
        assert(((48 + n) as u8 as char) as int == 48 + n);
    } else {
        lemma_dec_text_value(n / 10);
        let d = (48 + n % 10) as u8;
        assert(dec_bytes(n) == dec_bytes(n / 10).push(d));
        assert(dec_text(n).drop_last() =~= dec_text(n / 10));
        assert(dec_text(n).last() == d as char);
        assert(dec_value(dec_text(n)) == 10 * dec_value(dec_text(n).drop_last()) + (dec_text(
            n,
        ).last() as int - 48));
        assert((d as char) as int == 48 + n % 10);
        assert(n == 10 * (n / 10) + n % 10);
    }
}

/// A decimal digit character.
pub open spec fn is_digit(c: char) -> bool {
    48 <= c as int <= 57
}

/// Every character is a decimal digit.
pub open spec fn all_digits(s: Seq<char>) -> bool {
    forall|i: int| 0 <= i < s.len() ==> is_digit(#[trigger] s[i])
}

/// The number a digit string denotes.
pub open spec fn dec_value(s: Seq<char>) -> int
    recommends
        all_digits(s),
    decreases s.len(),
{
    if s.len() == 0 {
        0
    } else {
        10 * dec_value(s.drop_last()) + (s.last() as int - 48)
    }
}

pub proof fn lemma_dec_value_nonneg(s: Seq<char>)
    requires
        all_digits(s),
    ensures
        dec_value(s) >= 0,
    decreases s.len(),
{
    if s.len() > 0 {
        lemma_dec_value_nonneg(s.drop_last());
    }
}

/// A digit string's value dominates each of its prefixes: appending digits
/// never decreases the value.
pub proof fn lemma_dec_value_prefix(s: Seq<char>, i: int)
    requires
        all_digits(s),
        0 <= i <= s.len(),
    ensures
        dec_value(s.take(i)) <= dec_value(s),
    decreases s.len(),
{
    if i == s.len() {
        assert(s.take(i) =~= s);
    } else {
        let t = s.drop_last();
        assert(all_digits(t));
        assert(s.take(i) =~= t.take(i));
        lemma_dec_value_prefix(t, i);
        lemma_dec_value_nonneg(t);
        assert(dec_value(s) == 10 * dec_value(t) + (s.last() as int - 48));
        assert(dec_value(t) <= 10 * dec_value(t));
    }
}

/// Parse an unsigned decimal number.  Succeeds exactly on a non-empty
/// all-digit string whose value fits the target type.
pub fn parse_u32(s: &str) -> (r: Option<u32>)
    ensures
        r is Some <==> (s@.len() > 0 && all_digits(s@) && dec_value(s@) <= u32::MAX),
        r matches Some(v) ==> v as int == dec_value(s@),
{
    let n = s.unicode_len();
    if n == 0 {
        return None;
    }
    let mut acc: u64 = 0;
    let mut i: usize = 0;
    while i < n
        invariant
            0 <= i <= n,
            n == s@.len(),
            all_digits(s@.take(i as int)),
            acc == dec_value(s@.take(i as int)),
            acc <= u32::MAX,
        decreases n - i,
    {
        let c = s.get_char(i);
        let code: u32 = c as u32;
        if code < 48 || code > 57 {
            proof {
                assert(!is_digit(s@[i as int]));
            }
            return None;
        }
        let d: u64 = (code - 48) as u64;
        acc = acc * 10 + d;
        proof {
            assert(s@.take(i as int + 1).drop_last() =~= s@.take(i as int));
            assert(s@.take(i as int + 1).last() == s@[i as int]);
        }
        i = i + 1;
        if acc > u32::MAX as u64 {
            proof {
                if all_digits(s@) {
                    lemma_dec_value_prefix(s@, i as int);
                }
            }
            return None;
        }
    }
    proof {
        assert(s@.take(n as int) =~= s@);
    }
    Some(acc as u32)
}

} // verus!
