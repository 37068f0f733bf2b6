//! The formatter: a date as the 29 bytes of its IMF-fixdate.
use vstd::prelude::*;
use vstd::string::*;
use vstd::utf8::{
    encode_utf8, encode_utf8_decode_utf8, encode_utf8_valid_utf8, is_ascii_chars,
    is_ascii_chars_encode_utf8, valid_utf8,
};

use crate::datetime::DateTime;
use crate::layout::lemma_token_lengths;
use crate::parse::{month_str, weekday_str};
use crate::text::{imf_fixdate, is_ascii_bytes, two_digits, COLON, COMMA, SP, ZERO};

verus! {

/// The characters that ASCII bytes stand for, one for each byte.
pub open spec fn text_of(bytes: Seq<u8>) -> Seq<char> {
    Seq::new(bytes.len(), |i: int| bytes[i] as char)
}

/// ASCII bytes are the UTF-8 encoding of their characters, and of no other
/// text.
pub proof fn lemma_text_of(bytes: Seq<u8>)
    requires
        is_ascii_bytes(bytes),
    ensures
        is_ascii_chars(text_of(bytes)),
        encode_utf8(text_of(bytes)) == bytes,
        valid_utf8(bytes),
        forall|chars: Seq<char>| encode_utf8(chars) == bytes ==> chars == text_of(bytes),
{
    let text = text_of(bytes);
    assert(is_ascii_chars(text)) by {
        assert forall|i: int| 0 <= i < text.len() implies 0 <= (#[trigger] text[i]) as nat
            <= 0x7f by {
            assert(bytes[i] <= 0x7f);
        }
    }
    is_ascii_chars_encode_utf8(text);
    assert(encode_utf8(text) =~= bytes);
    encode_utf8_valid_utf8(text);
    assert forall|chars: Seq<char>| encode_utf8(chars) == bytes implies chars == text by {
        encode_utf8_decode_utf8(chars);
        encode_utf8_decode_utf8(text);
    }
}

/// `String::from_utf8`: the string that the bytes encode in UTF-8; there is
/// one exactly when they are valid UTF-8.
#[verifier::external_body]
fn string_from_utf8(bytes: Vec<u8>) -> (r: Option<String>)
    ensures
        r is Some <==> valid_utf8(bytes@),
        r matches Some(s) ==> encode_utf8(s@) == bytes@,
{
    String::from_utf8(bytes).ok()
}

/// The string whose characters are the given ASCII bytes.
pub fn ascii_string(bytes: Vec<u8>) -> (s: String)
    requires
        is_ascii_bytes(bytes@),
    ensures
        s@ == text_of(bytes@),
{
    proof {
        lemma_text_of(bytes@);
    }
    match string_from_utf8(bytes) {
        Some(s) => s,
        None => unreached(),
    }
}

/// Appends the two digits of `n` to `buf`.
fn push_two_digits(buf: &mut Vec<u8>, n: u8)
    requires
        n <= 99,
    ensures
        final(buf)@ == old(buf)@ + two_digits(n as int),
{
    buf.push(ZERO + n / 10);
    buf.push(ZERO + n % 10);
    assert(buf@ =~= old(buf)@ + two_digits(n as int));
}

/// Appends the first `n` bytes of `token` to `buf`.
fn push_token(buf: &mut Vec<u8>, token: &str, n: usize)
    requires
        n <= token.spec_bytes().len(),
    ensures
        final(buf)@ == old(buf)@ + token.spec_bytes().subrange(0, n as int),
{
    let bytes = token.as_bytes();
    let mut i: usize = 0;
    while i < n
        invariant
            i <= n <= bytes@.len(),
            bytes@ == token.spec_bytes(),
            buf@ == old(buf)@ + bytes@.subrange(0, i as int),
        decreases n - i,
    {
        buf.push(bytes[i]);
        i += 1;
        assert(buf@ =~= old(buf)@ + bytes@.subrange(0, i as int));
    }
}

/// The IMF-fixdate of `t`: `Www, dd Mon yyyy HH:MM:SS GMT`, 29 bytes.
pub fn imf_fixdate_bytes(t: &DateTime) -> (buf: Vec<u8>)
    requires
        t.fits(),
    ensures
        buf@ == imf_fixdate(*t),
{
    proof {
        lemma_token_lengths(t.wday as int, t.mon as int);
    }
    let mut buf: Vec<u8> = Vec::with_capacity(29);
    push_token(&mut buf, weekday_str(t.wday), 3);
    buf.push(COMMA);
    buf.push(SP);
    push_two_digits(&mut buf, t.day);
    buf.push(SP);
    push_token(&mut buf, month_str(t.mon), 3);
    buf.push(SP);
    buf.push(ZERO + (t.year / 1000) as u8);
    buf.push(ZERO + (t.year / 100 % 10) as u8);
    buf.push(ZERO + (t.year / 10 % 10) as u8);
    buf.push(ZERO + (t.year % 10) as u8);
    buf.push(SP);
    push_two_digits(&mut buf, t.hour);
    buf.push(COLON);
    push_two_digits(&mut buf, t.min);
    buf.push(COLON);
    push_two_digits(&mut buf, t.sec);
    buf.push(SP);
    push_token(&mut buf, "GMT", 3);
    assert(buf@ =~= imf_fixdate(*t));
    buf
}

} // verus!
