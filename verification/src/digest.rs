//! Digests, their textual form, and the Base64 form of process data.
use base64::Engine;
use sha2::Digest;
use vstd::prelude::*;
use vstd::utf8::*;

use crate::text::{bytes_of, concat};

verus! {

/// The SHA-256 digest of a byte string.
pub uninterp spec fn sha256(data: Seq<u8>) -> Seq<u8>;

/// The bytes that a text stands for in padded standard Base64, if it is well formed.
pub uninterp spec fn base64_decoded(text: Seq<char>) -> Option<Seq<u8>>;

/// The padded standard Base64 form of a byte string.
pub uninterp spec fn base64_text(data: Seq<u8>) -> Seq<char>;

/// The lower-case hexadecimal digit for a number below sixteen.
pub open spec fn hex_digit(n: u8) -> char {
    if n < 10 {
        ((48 + n) as u8) as char
    } else {
        ((87 + n) as u8) as char
    }
}

/// Two lower-case hexadecimal digits for each byte.
pub open spec fn hex_text(data: Seq<u8>) -> Seq<char>
    decreases data.len(),
{
    if data.len() == 0 {
        Seq::empty()
    } else {
        hex_text(data.drop_last()).push(hex_digit(data.last() / 16)).push(
            hex_digit(data.last() % 16),
        )
    }
}

/// The fingerprint of a byte string: the name of the digest and its digits.
pub open spec fn fingerprint_of(data: Seq<u8>) -> Seq<char> {
    "sha256:"@ + hex_text(sha256(data))
}

/// A decimal digit or one of the letters `a` to `f`.
pub open spec fn is_lower_hex(c: char) -> bool {
    '0' <= c <= '9' || 'a' <= c <= 'f'
}

/// Whether a text has the form of a digest: sixty-four digits.
pub open spec fn is_digest_text(text: Seq<char>) -> bool {
    &&& text.len() == 64
    &&& forall|i: int| 0 <= i < 64 ==> is_lower_hex(#[trigger] text[i])
}

/// Whether a text has the form of a fingerprint: the name of the digest and sixty-four digits.
pub open spec fn is_fingerprint(text: Seq<char>) -> bool {
    &&& text.len() == 71
    &&& text.take(7) == "sha256:"@
    &&& forall|i: int| 7 <= i < 71 ==> is_lower_hex(#[trigger] text[i])
}

/// `sha2::Sha256::digest`: the digest of the bytes, a function of the bytes alone. A digest has
/// thirty-two bytes.
#[verifier::external_body]
fn sha256_digest(data: &[u8]) -> (r: Vec<u8>)
    ensures
        r@ == sha256(data@),
        r@.len() == 32,
{
    sha2::Sha256::digest(data).to_vec()
}

/// `hex::encode`: every byte as two lower-case hexadecimal digits, the high half first.
#[verifier::external_body]
fn hex_encode(data: &[u8]) -> (r: String)
    ensures
        r@ == hex_text(data@),
{
    hex::encode(data)
}

/// `Engine::decode` of `base64::engine::general_purpose::STANDARD`: the bytes that the text stands
/// for, or nothing where it is not well formed.
#[verifier::external_body]
fn base64_decode(text: &str) -> (r: Option<Vec<u8>>)
    ensures
        r matches Some(data) ==> base64_decoded(text@) == Some(data@),
        r is None ==> base64_decoded(text@) is None,
{
    base64::engine::general_purpose::STANDARD.decode(text).ok()
}

/// `Engine::encode` of `base64::engine::general_purpose::STANDARD`: a text that stands for the
/// bytes, so that decoding it gives them back.
#[verifier::external_body]
fn base64_encode(data: &[u8]) -> (r: String)
    ensures
        r@ == base64_text(data@),
        base64_decoded(r@) == Some(data@),
{
    base64::engine::general_purpose::STANDARD.encode(data)
}

/// The hexadecimal digits of the SHA-256 digest of a byte string.
pub fn digest_text(data: &[u8]) -> (r: String)
    ensures
        r@ == hex_text(sha256(data@)),
        is_digest_text(r@),
{
    let digest = sha256_digest(data);
    proof {
        lemma_hex_text(digest@);
    }
    hex_encode(&digest)
}

/// The fingerprint of a byte string.
pub fn fingerprint(data: &[u8]) -> (r: String)
    ensures
        r@ == fingerprint_of(data@),
        is_fingerprint(r@),
{
    let r = concat("sha256:", &digest_text(data));
    proof {
        reveal_strlit("sha256:");
        lemma_hex_text(sha256(data@));
        assert(r@.take(7) =~= "sha256:"@);
        assert forall|i: int| 7 <= i < 71 implies is_lower_hex(#[trigger] r@[i]) by {
            assert(r@[i] == hex_text(sha256(data@))[i - 7]);
        }
    }
    r
}

/// The fingerprint of several texts written one after another.
pub fn fingerprint_of_texts(a: &str, b: &str, c: &str) -> (r: String)
    ensures
        r@ == fingerprint_of(encode_utf8(a@) + encode_utf8(b@) + encode_utf8(c@)),
{
    let mut data = bytes_of(a);
    data.append(&mut bytes_of(b));
    data.append(&mut bytes_of(c));
    assert(data@ =~= encode_utf8(a@) + encode_utf8(b@) + encode_utf8(c@));
    fingerprint(&data)
}

/// The bytes that a Base64 text stands for.
pub fn decode_base64(text: &str) -> (r: Option<Vec<u8>>)
    ensures
        r matches Some(data) ==> base64_decoded(text@) == Some(data@),
        r is None ==> base64_decoded(text@) is None,
{
    base64_decode(text)
}

/// The Base64 text of a byte string. Decoding it gives the bytes back.
pub fn encode_base64(data: &[u8]) -> (r: String)
    ensures
        r@ == base64_text(data@),
        base64_decoded(r@) == Some(data@),
{
    base64_encode(data)
}

/// A digest's text has two lower-case digits for each of its bytes.
proof fn lemma_hex_text(data: Seq<u8>)
    ensures
        hex_text(data).len() == 2 * data.len(),
        forall|i: int| 0 <= i < 2 * data.len() ==> is_lower_hex(#[trigger] hex_text(data)[i]),
    decreases data.len(),
{
    if data.len() > 0 {
        lemma_hex_text(data.drop_last());
    }
}

/// The number that a lower-case hexadecimal digit stands for.
pub open spec fn digit_value(c: char) -> int {
    if '0' <= c <= '9' {
        c as int - '0' as int
    } else {
        c as int - 'a' as int + 10
    }
}

/// The two digits of every byte stand for it, the greater one first.
pub proof fn law_digits_stand_for_the_bytes(data: Seq<u8>, i: int)
    requires
        0 <= i < data.len(),
    ensures
        hex_text(data).len() == 2 * data.len(),
        16 * digit_value(hex_text(data)[2 * i]) + digit_value(hex_text(data)[2 * i + 1]) == data[i],
    decreases data.len(),
{
    lemma_hex_text(data);
    lemma_hex_text(data.drop_last());
    if i < data.len() - 1 {
        law_digits_stand_for_the_bytes(data.drop_last(), i);
    }
}

/// Fingerprints are the same only where the digests are.
pub proof fn law_fingerprints_are_digests(a: Seq<u8>, b: Seq<u8>)
    ensures
        fingerprint_of(a) == fingerprint_of(b) ==> sha256(a) == sha256(b),
        fingerprint_of(a).take(7) == seq!['s', 'h', 'a', '2', '5', '6', ':'],
{
    reveal_strlit("sha256:");
    let front = seq!['s', 'h', 'a', '2', '5', '6', ':'];
    assert("sha256:"@ =~= front);
    assert(fingerprint_of(a).take(7) =~= front);
    if fingerprint_of(a) == fingerprint_of(b) {
        let x = sha256(a);
        let y = sha256(b);
        lemma_hex_text(x);
        lemma_hex_text(y);
        assert(hex_text(x) =~= fingerprint_of(a).skip(7));
        assert(hex_text(y) =~= fingerprint_of(b).skip(7));
        assert forall|i: int| 0 <= i < x.len() implies x[i] == y[i] by {
            law_digits_stand_for_the_bytes(x, i);
            law_digits_stand_for_the_bytes(y, i);
        }
        assert(x =~= y);
    }
}

} // verus!
