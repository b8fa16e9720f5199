//! Percent-encoding of station names for use in URLs.
use vstd::prelude::*;

use crate::text::push_char;
use vstd::string::StringSliceAdditionalSpecFns;

verus! {

/// Bytes that pass through unchanged: ASCII letters, digits and `- _ . ~`.
pub open spec fn is_unreserved(b: u8) -> bool {
    (65 <= b && b <= 90) || (97 <= b && b <= 122) || (48 <= b && b <= 57) || b == 45 || b == 95
        || b == 46 || b == 126
}

/// The upper-case hexadecimal digit for `d` in `0..16`.
pub open spec fn hex_upper(d: int) -> char {
    if d < 10 {
        (48 + d) as char
    } else {
        (55 + d) as char
    }
}

/// How one byte is written: itself when unreserved, else `%` and two upper-case hex digits.
pub open spec fn encode_byte(b: u8) -> Seq<char> {
    if is_unreserved(b) {
        seq![b as char]
    } else {
        seq!['%', hex_upper((b / 16) as int), hex_upper((b % 16) as int)]
    }
}

/// The encoding of a byte sequence: each byte's encoding, in order.
pub open spec fn encode_bytes(bs: Seq<u8>) -> Seq<char>
    decreases bs.len(),
{
    if bs.len() == 0 {
        Seq::empty()
    } else {
        encode_bytes(bs.drop_last()) + encode_byte(bs.last())
    }
}

fn hex_upper_exec(d: u8) -> (r: char)
    requires
        d < 16,
    ensures
        r == hex_upper(d as int),
{
    if d < 10 {
        (48 + d) as char
    } else {
        (55 + d) as char
    }
}

/// Percent-encodes the UTF-8 bytes of `input`, in the manner of JavaScript's
/// `encodeURIComponent` restricted to the unreserved set `A-Z a-z 0-9 - _ . ~`.
pub fn encode_uri_component(input: &str) -> (r: String)
    ensures
        r@ == encode_bytes(input.spec_bytes()),
{
    let bytes = input.as_bytes();
    let mut encoded = String::new();
    let mut i: usize = 0;
    while i < bytes.len()
        invariant
            bytes@ == input.spec_bytes(),
            i <= bytes@.len(),
            encoded@ == encode_bytes(bytes@.subrange(0, i as int)),
        decreases bytes@.len() - i,
    {
        let byte = bytes[i];
        proof {
            let pre = bytes@.subrange(0, i as int + 1);
            assert(pre.drop_last() =~= bytes@.subrange(0, i as int));
            assert(pre.last() == byte);
        }
        if (65 <= byte && byte <= 90) || (97 <= byte && byte <= 122) || (48 <= byte && byte <= 57)
            || byte == 45 || byte == 95 || byte == 46 || byte == 126 {
            push_char(&mut encoded, byte as char);
        } else {
            push_char(&mut encoded, '%');
            push_char(&mut encoded, hex_upper_exec(byte / 16));
            push_char(&mut encoded, hex_upper_exec(byte % 16));
        }
        i = i + 1;
        assert(encoded@ =~= encode_bytes(bytes@.subrange(0, i as int)));
    }
    assert(bytes@.subrange(0, bytes@.len() as int) =~= bytes@);
    encoded
}

/// A string whose bytes are all unreserved is its own encoding.
pub proof fn lemma_unreserved_unchanged(bs: Seq<u8>)
    requires
        forall|i: int| 0 <= i < bs.len() ==> is_unreserved(#[trigger] bs[i]),
    ensures
        encode_bytes(bs) == bs.map_values(|b: u8| b as char),
    decreases bs.len(),
{
    if bs.len() > 0 {
        lemma_unreserved_unchanged(bs.drop_last());
        assert(encode_bytes(bs) =~= bs.map_values(|b: u8| b as char));
    } else {
        assert(encode_bytes(bs) =~= bs.map_values(|b: u8| b as char));
    }
}

/// Every character of an encoding is an unreserved character, `%`, or an upper-case hex digit.
pub open spec fn is_url_safe_char(c: char) -> bool {
    ('A' <= c && c <= 'Z') || ('a' <= c && c <= 'z') || ('0' <= c && c <= '9') || c == '-' || c
        == '_' || c == '.' || c == '~' || c == '%'
}

/// The encoding of any byte sequence holds only URL-safe characters.
pub proof fn lemma_encoding_is_url_safe(bs: Seq<u8>)
    ensures
        forall|i: int| 0 <= i < encode_bytes(bs).len() ==> is_url_safe_char(#[trigger] encode_bytes(bs)[i]),
    decreases bs.len(),
{
    if bs.len() > 0 {
        lemma_encoding_is_url_safe(bs.drop_last());
        let pre = encode_bytes(bs.drop_last());
        let last = encode_byte(bs.last());
        assert forall|i: int| 0 <= i < encode_bytes(bs).len() implies is_url_safe_char(#[trigger] encode_bytes(bs)[i]) by {
            if i < pre.len() {
                assert(encode_bytes(bs)[i] == pre[i]);
            } else {
                assert(encode_bytes(bs)[i] == last[i - pre.len()]);
            }
        }
    }
}


/// The value of an upper-case hexadecimal digit.
pub open spec fn hex_value(c: char) -> int {
    if c <= '9' {
        c as int - 48
    } else {
        c as int - 55
    }
}

/// Percent-decoding: `%` and two hex digits give the byte they spell; any other
/// character gives its own code as a byte.
pub open spec fn percent_decode(s: Seq<char>) -> Seq<u8>
    decreases s.len(),
{
    if s.len() == 0 {
        Seq::empty()
    } else if s[0] == '%' && s.len() >= 3 {
        seq![(hex_value(s[1]) * 16 + hex_value(s[2])) as u8] + percent_decode(
            s.subrange(3, s.len() as int),
        )
    } else {
        seq![s[0] as u8] + percent_decode(s.subrange(1, s.len() as int))
    }
}

/// The encoding read from the front: the first byte's encoding, then the rest's.
proof fn lemma_encode_first(bs: Seq<u8>)
    requires
        bs.len() > 0,
    ensures
        encode_bytes(bs) == encode_byte(bs[0]) + encode_bytes(bs.drop_first()),
    decreases bs.len(),
{
    if bs.len() == 1 {
        assert(bs.drop_last() =~= Seq::<u8>::empty());
        assert(bs.drop_first() =~= Seq::<u8>::empty());
        assert(encode_bytes(bs) =~= encode_byte(bs[0]) + encode_bytes(bs.drop_first()));
    } else {
        lemma_encode_first(bs.drop_last());
        assert(bs.drop_last().drop_first() =~= bs.drop_first().drop_last());
        assert(bs.drop_last()[0] == bs[0]);
        assert(bs.drop_first().last() == bs.last());
        assert(encode_bytes(bs) =~= encode_byte(bs[0]) + encode_bytes(bs.drop_first()));
    }
}

/// Decoding one byte's encoding in front of any text gives the byte back, then the
/// decoding of the text.
proof fn lemma_decode_byte(b: u8, rest: Seq<char>)
    ensures
        percent_decode(encode_byte(b) + rest) == seq![b] + percent_decode(rest),
{
    let s = encode_byte(b) + rest;
    if is_unreserved(b) {
        assert(s[0] == b as char);
        assert((b as char) as u8 == b);
        assert(s.subrange(1, s.len() as int) =~= rest);
    } else {
        let hi = b / 16;
        let lo = b % 16;
        assert(s[0] == '%');
        assert(s[1] == hex_upper(hi as int));
        assert(s[2] == hex_upper(lo as int));
        assert(hex_value(hex_upper(hi as int)) == hi);
        assert(hex_value(hex_upper(lo as int)) == lo);
        assert(((b / 16) * 16 + b % 16) as u8 == b) by (bit_vector);
        assert(s.subrange(3, s.len() as int) =~= rest);
    }
}

/// Percent-decoding an encoding gives the bytes back.
pub proof fn lemma_decode_encoding(bs: Seq<u8>)
    ensures
        percent_decode(encode_bytes(bs)) == bs,
    decreases bs.len(),
{
    if bs.len() == 0 {
        assert(encode_bytes(bs) =~= Seq::<char>::empty());
    } else {
        lemma_encode_first(bs);
        lemma_decode_byte(bs[0], encode_bytes(bs.drop_first()));
        lemma_decode_encoding(bs.drop_first());
        assert(seq![bs[0]] + bs.drop_first() =~= bs);
    }
}

/// Two strings with the same encoding have the same UTF-8 bytes: the encoding loses
/// nothing.
pub proof fn lemma_encoding_is_injective(a: Seq<u8>, b: Seq<u8>)
    requires
        encode_bytes(a) == encode_bytes(b),
    ensures
        a == b,
{
    lemma_decode_encoding(a);
    lemma_decode_encoding(b);
}

} // verus!
