use vstd::prelude::*;
use vstd::utf8::{decode_utf8, encode_utf8, valid_utf8};
use crate::base64::{base64_decoded, base64_encoded, decode_base64, lemma_base64_round_trip};

verus! {

/// Whether a byte is an ASCII hexadecimal digit.
pub open spec fn is_hex(b: u8) -> bool {
    (0x30 <= b <= 0x39) || (0x41 <= b <= 0x46) || (0x61 <= b <= 0x66)
}

/// The value of an ASCII hexadecimal digit.
pub open spec fn hex_value(b: u8) -> nat {
    if b <= 0x39 { (b - 0x30) as nat }
    else if b <= 0x46 { (b - 0x41 + 10) as nat }
    else { (b - 0x61 + 10) as nat }
}

/// The bytes with every `%` followed by two hexadecimal digits replaced by the
/// byte those digits spell; every other byte is kept.
pub open spec fn percent_decoded(b: Seq<u8>) -> Seq<u8>
    decreases b.len(),
{
    if b.len() == 0 {
        b
    } else if b[0] == 0x25 && b.len() >= 3 && is_hex(b[1]) && is_hex(b[2]) {
        seq![(hex_value(b[1]) * 16 + hex_value(b[2])) as u8] + percent_decoded(b.subrange(3, b.len() as int))
    } else {
        seq![b[0]] + percent_decoded(b.subrange(1, b.len() as int))
    }
}

/// What decoding bytes as UTF-8, with each invalid part replaced by U+FFFD, gives.
pub uninterp spec fn utf8_lossy(b: Seq<u8>) -> Seq<char>;

/// The text a percent-encoded text decodes to: the decoded bytes read as
/// UTF-8, lossily where they are not valid.
pub open spec fn percent_text(s: Seq<char>) -> Seq<char> {
    let b = percent_decoded(encode_utf8(s));
    if valid_utf8(b) {
        decode_utf8(b)
    } else {
        utf8_lossy(b)
    }
}

/// Relies on `percent_encoding::percent_decode` and its `decode_utf8_lossy`:
/// `%` with two hexadecimal digits becomes the byte they spell, and the bytes
/// are read as UTF-8, unchanged where they are valid.
#[verifier::external_body]
fn percent_decode_lossy(s: &str) -> (r: String)
    ensures
        valid_utf8(percent_decoded(encode_utf8(s@))) ==> r@ == decode_utf8(percent_decoded(encode_utf8(s@))),
        !valid_utf8(percent_decoded(encode_utf8(s@))) ==> r@ == utf8_lossy(percent_decoded(encode_utf8(s@))),
{
    percent_encoding::percent_decode(s.as_bytes()).decode_utf8_lossy().to_string()
}

/// Decodes a percent-encoded text, lossily where the bytes it spells are not
/// valid UTF-8.
pub fn decode_percent(raw: &str) -> (r: String)
    ensures
        r@ == percent_text(raw@),
{
    percent_decode_lossy(raw)
}

proof fn lemma_high_bytes(y: u8)
    by (bit_vector)
    ensures
        (0xC0u8 | y) >= 0x80u8,
        (0xE0u8 | y) >= 0x80u8,
        (0xF0u8 | y) >= 0x80u8,
        (0x80u8 | y) >= 0x80u8,
{
}

proof fn lemma_low_byte(v: u32)
    by (bit_vector)
    requires
        v <= 0x7F,
    ensures
        (v & 0x7F) as u8 == v as u8,
        (v as u8) as u32 == v,
{
}

/// Whether a character is an ASCII hexadecimal digit.
pub open spec fn is_hex_char(c: char) -> bool {
    ('0' <= c && c <= '9') || ('A' <= c && c <= 'F') || ('a' <= c && c <= 'f')
}

/// The text holds no percent-escape: no `%` is followed by two hexadecimal digits.
pub open spec fn no_escape(s: Seq<char>) -> bool {
    forall|i: int| 0 <= i && i + 2 < s.len() && #[trigger] s[i] == '%' ==> !(is_hex_char(s[i + 1]) && is_hex_char(s[i + 2]))
}

/// Bytes without `%` in front pass through decoding unchanged.
proof fn lemma_plain_front(h: Seq<u8>, t: Seq<u8>)
    requires
        !h.contains(0x25u8),
    ensures
        percent_decoded(h + t) == h + percent_decoded(t),
    decreases h.len(),
{
    if h.len() > 0 {
        let rest = h.subrange(1, h.len() as int);
        assert forall|k: int| 0 <= k < rest.len() implies rest[k] != 0x25u8 by {
            assert(rest[k] == h[k + 1]);
        }
        lemma_plain_front(rest, t);
        assert(h[0] != 0x25u8);
        assert((h + t).subrange(1, (h + t).len() as int) =~= rest + t);
        assert(seq![h[0]] + (rest + t) =~= h + t);
        assert(seq![h[0]] + (rest + percent_decoded(t)) =~= h + percent_decoded(t));
    }
}

/// The first byte of a text's encoding is below 0x80 only for an ASCII
/// character, and is then that character.
proof fn lemma_first_byte(s: Seq<char>)
    requires
        s.len() > 0,
    ensures
        encode_utf8(s).len() > 0,
        encode_utf8(s)[0] < 0x80u8 ==> (s[0] as u32) < 0x80 && encode_utf8(s)[0] as u32 == s[0] as u32
            && encode_utf8(s).subrange(1, encode_utf8(s).len() as int) == encode_utf8(s.drop_first()),
{
    let c = s[0] as u32;
    vstd::utf8::char_is_scalar(s[0]);
    let head = vstd::utf8::encode_scalar(c);
    let all = encode_utf8(s);
    assert(all == head + encode_utf8(s.drop_first()));
    if vstd::utf8::has_width_1_encoding(c) {
        lemma_low_byte(c);
        assert(all[0] == head[0]);
        assert(all.subrange(1, all.len() as int) =~= encode_utf8(s.drop_first()));
    } else {
        lemma_high_bytes(((c >> 6) & 0x1F) as u8);
        lemma_high_bytes(((c >> 12) & 0x0F) as u8);
        lemma_high_bytes(((c >> 18) & 0x7) as u8);
        assert(all[0] == head[0]);
    }
}

proof fn lemma_hex_char(c: char, b: u8)
    requires
        is_hex(b),
        b as u32 == c as u32,
    ensures
        is_hex_char(c),
{
    assert('0' as u32 == 0x30 && '9' as u32 == 0x39 && 'A' as u32 == 0x41 && 'F' as u32 == 0x46);
    assert('a' as u32 == 0x61 && 'f' as u32 == 0x66);
}

/// The UTF-8 encoding of a text without percent-escapes decodes to itself.
proof fn lemma_escape_free_encoding(s: Seq<char>)
    requires
        no_escape(s),
    ensures
        percent_decoded(encode_utf8(s)) == encode_utf8(s),
    decreases s.len(),
{
    if s.len() > 0 {
        let rest = s.drop_first();
        assert forall|i: int| 0 <= i && i + 2 < rest.len() && #[trigger] rest[i] == '%' implies !(
        is_hex_char(rest[i + 1]) && is_hex_char(rest[i + 2])) by {
            assert(rest[i] == s[i + 1] && rest[i + 1] == s[i + 2] && rest[i + 2] == s[i + 3]);
        }
        lemma_escape_free_encoding(rest);
        let c = s[0] as u32;
        vstd::utf8::char_is_scalar(s[0]);
        let head = vstd::utf8::encode_scalar(c);
        let tail = encode_utf8(rest);
        assert(encode_utf8(s) == head + tail);
        if s[0] != '%' {
            if vstd::utf8::has_width_1_encoding(c) {
                lemma_low_byte(c);
                vstd::utf8::char_u32_cast(s[0], c);
                if c == 0x25u32 {
                    assert((0x25u32 as char) == '%');
                }
            } else {
                lemma_high_bytes(((c >> 6) & 0x1F) as u8);
                lemma_high_bytes(((c >> 12) & 0x0F) as u8);
                lemma_high_bytes(((c >> 18) & 0x7) as u8);
                lemma_high_bytes((c & 0x3F) as u8);
                lemma_high_bytes(((c >> 6) & 0x3F) as u8);
                lemma_high_bytes(((c >> 12) & 0x3F) as u8);
            }
            assert(!head.contains(0x25u8));
            lemma_plain_front(head, tail);
        } else {
            assert(c == 0x25u32);
            lemma_low_byte(c);
            assert(head =~= seq![0x25u8]);
            let b = head + tail;
            assert(b.subrange(1, b.len() as int) =~= tail);
            if tail.len() >= 2 && is_hex(tail[0]) && is_hex(tail[1]) {
                lemma_first_byte(rest);
                let rest2 = rest.drop_first();
                assert(rest.len() >= 2) by {
                    if rest.len() == 1 {
                        assert(rest2.len() == 0);
                        assert(tail.subrange(1, tail.len() as int) == encode_utf8(rest2));
                        assert(tail.subrange(1, tail.len() as int).len() == tail.len() - 1);
                    }
                }
                lemma_first_byte(rest2);
                assert(tail[1] == encode_utf8(rest2)[0]) by {
                    assert(tail.subrange(1, tail.len() as int)[0] == tail[1]);
                }
                assert(rest[0] == s[1] && rest2[0] == s[2]);
                lemma_hex_char(rest[0], tail[0]);
                lemma_hex_char(rest2[0], tail[1]);
                assert(is_hex_char(s[1]) && is_hex_char(s[2]));
                assert(false);
            }
            assert(seq![b[0]] + percent_decoded(tail) =~= b);
        }
    }
}

/// Percent-decoding a text that holds no percent-escape (no `%` followed by
/// two hexadecimal digits) gives the text back unchanged.
pub proof fn lemma_decoding_without_escapes(s: Seq<char>)
    requires
        no_escape(s),
    ensures
        percent_text(s) == s,
{
    lemma_escape_free_encoding(s);
    vstd::utf8::encode_utf8_valid_utf8(s);
    vstd::utf8::encode_utf8_decode_utf8(s);
}

/// How a request identifier spells a path.
#[derive(Clone, Copy, Debug, PartialEq, Eq, Structural)]
pub enum Encoding {
    /// The path as it is.
    Plain,
    /// The path with percent-escapes.
    PercentEncoded,
    /// The UTF-8 bytes of the path in base64, without padding.
    Base64,
}

/// Why an identifier names no path.
#[derive(Clone, Copy, Debug, PartialEq, Eq, Structural)]
pub enum ResolveError {
    /// Not base64, or bytes that are not UTF-8.
    InvalidEncoding,
}

/// The path a base64 identifier spells, where it spells one.
pub open spec fn base64_text(s: Seq<char>) -> Option<Seq<char>> {
    match base64_decoded(s) {
        Some(b) => if valid_utf8(b) { Some(decode_utf8(b)) } else { None },
        None => None,
    }
}

/// Relies on `String::from_utf8`: it accepts exactly the valid UTF-8 byte
/// sequences, and the text holds the characters they encode.
#[verifier::external_body]
fn utf8_text(b: Vec<u8>) -> (r: Option<String>)
    ensures
        r is Some <==> valid_utf8(b@),
        r matches Some(t) ==> t@ == decode_utf8(b@),
{
    String::from_utf8(b).ok()
}

/// The path a request identifier names, under the given encoding.
pub fn resolve(raw: &str, encoding: Encoding) -> (r: Result<String, ResolveError>)
    ensures
        encoding == Encoding::Plain ==> (r matches Ok(p) && p@ == raw@),
        encoding == Encoding::PercentEncoded ==> (r matches Ok(p) && p@ == percent_text(raw@)),
        encoding == Encoding::Base64 ==> match base64_text(raw@) {
            Some(t) => r matches Ok(p) && p@ == t,
            None => r == Err::<String, ResolveError>(ResolveError::InvalidEncoding),
        },
{
    match encoding {
        Encoding::Plain => Ok(raw.to_string()),
        Encoding::PercentEncoded => Ok(decode_percent(raw)),
        Encoding::Base64 => match decode_base64(raw) {
            Some(bytes) => match utf8_text(bytes) {
                Some(p) => Ok(p),
                None => Err(ResolveError::InvalidEncoding),
            },
            None => Err(ResolveError::InvalidEncoding),
        },
    }
}

/// A path written as base64 of its UTF-8 bytes resolves to the path itself.
pub proof fn lemma_base64_path_round_trip(path: Seq<char>)
    ensures
        base64_text(base64_encoded(encode_utf8(path))) == Some(path),
{
    lemma_base64_round_trip(encode_utf8(path));
    vstd::utf8::encode_utf8_valid_utf8(path);
    vstd::utf8::encode_utf8_decode_utf8(path);
}

} // verus!
