//! The text form of binary values: URL-safe base64 with padding.
//!
//! Salts, nonces and the names of stored files are random bytes. Wherever they
//! stand in a text file they stand in this form.

use vstd::prelude::*;
use vstd::string::*;
use vstd::utf8::*;
use crate::error::Error;

verus! {

#[verifier::external_type_specification]
#[verifier::external_body]
pub struct ExDecodeError(base64::DecodeError);

/// The text that the `base64` crate's URL-safe, padded engine gives for `bytes`.
pub uninterp spec fn url_safe_base64(bytes: Seq<u8>) -> Seq<char>;

/// What the `base64` crate's URL-safe, padded engine decodes from the bytes of
/// a text, or `None` where it rejects them.
pub uninterp spec fn url_safe_base64_decoded(text: Seq<u8>) -> Option<Seq<u8>>;

/// The longest input, in bytes, whose text form has a length that fits a
/// machine word of 32 bits.
pub const MAX_ENCODE_LEN: usize = 0x3fff_ffff;

/// The characters of the text form: the URL-safe alphabet and the padding sign.
pub open spec fn is_url_safe_char(c: char) -> bool {
    ||| 'A' <= c <= 'Z'
    ||| 'a' <= c <= 'z'
    ||| '0' <= c <= '9'
    ||| c == '-'
    ||| c == '_'
    ||| c == '='
}

/// Whether every character of `text` belongs to the text form.
pub open spec fn is_url_safe_text(text: Seq<char>) -> bool {
    forall|i: int| 0 <= i < text.len() ==> is_url_safe_char(#[trigger] text[i])
}

/// What a text decodes to.
pub open spec fn decoded(text: Seq<char>) -> Option<Seq<u8>> {
    url_safe_base64_decoded(encode_utf8(text))
}

/// `Engine::encode` of `base64`, on the engine `URL_SAFE`. Trusted: the result
/// is the named text form of `bytes`; it consists of characters of the
/// URL-safe alphabet and of padding signs; and the same engine decodes it to
/// `bytes` again. Inputs whose encoded length would overflow are left out.
#[verifier::external_body]
fn base64_encode(bytes: &[u8]) -> (text: String)
    requires
        bytes@.len() <= MAX_ENCODE_LEN,
    ensures
        text@ == url_safe_base64(bytes@),
        is_url_safe_text(text@),
        url_safe_base64_decoded(encode_utf8(text@)) == Some(bytes@),
{
    base64::Engine::encode(&base64::engine::general_purpose::URL_SAFE, bytes)
}

/// `Engine::decode` of `base64`, on the engine `URL_SAFE`. Trusted: the result
/// is the named decoding of `text`, and an error stands where that decoding
/// rejects it.
#[verifier::external_body]
fn base64_decode(text: &[u8]) -> (r: Result<Vec<u8>, base64::DecodeError>)
    ensures
        r matches Ok(bytes) ==> url_safe_base64_decoded(text@) == Some(bytes@),
        r is Err ==> url_safe_base64_decoded(text@) is None,
{
    base64::Engine::decode(&base64::engine::general_purpose::URL_SAFE, text)
}

/// The text form of `bytes`.
pub fn encode(bytes: &[u8]) -> (text: String)
    requires
        bytes@.len() <= MAX_ENCODE_LEN,
    ensures
        text@ == url_safe_base64(bytes@),
        is_url_safe_text(text@),
        decoded(text@) == Some(bytes@),
{
    base64_encode(bytes)
}

/// The bytes that the bytes of a text stand for. Fails with `BadEncoding`
/// exactly where they are not a text form.
pub fn decode_bytes(text: &[u8]) -> (r: Result<Vec<u8>, Error>)
    ensures
        match url_safe_base64_decoded(text@) {
            Some(bytes) => r matches Ok(v) && v@ == bytes,
            None => r == Err::<Vec<u8>, Error>(Error::BadEncoding),
        },
{
    match base64_decode(text) {
        Ok(bytes) => Ok(bytes),
        Err(_) => Err(Error::BadEncoding),
    }
}

/// The bytes that a text stands for. Fails with `BadEncoding` exactly where
/// the text is not a text form.
pub fn decode(text: &str) -> (r: Result<Vec<u8>, Error>)
    ensures
        match decoded(text@) {
            Some(bytes) => r matches Ok(v) && v@ == bytes,
            None => r == Err::<Vec<u8>, Error>(Error::BadEncoding),
        },
{
    decode_bytes(text.as_bytes())
}

/// A text form is plain ASCII, so its bytes are its characters.
pub proof fn lemma_url_safe_text_is_ascii(text: Seq<char>)
    requires
        is_url_safe_text(text),
    ensures
        is_ascii_chars(text),
        encode_utf8(text).len() == text.len(),
        forall|i: int| 0 <= i < text.len() ==> (#[trigger] encode_utf8(text)[i]) == text[i] as u8,
        forall|i: int| 0 <= i < text.len() ==> (#[trigger] encode_utf8(text)[i]) != 10u8,
{
    assert forall|i: int| 0 <= i < text.len() implies '\0' <= #[trigger] text[i] <= '\u{7f}' by {
        assert(is_url_safe_char(text[i]));
    }
    is_ascii_chars_encode_utf8(text);
    assert forall|i: int| 0 <= i < text.len() implies (#[trigger] encode_utf8(text)[i]) != 10u8 by {
        assert(is_url_safe_char(text[i]));
        assert(encode_utf8(text)[i] == text[i] as u8);
    }
}

} // verus!
