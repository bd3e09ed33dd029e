//! The authorisation headers of requests to Reddit.
use vstd::prelude::*;

use base64::{engine::general_purpose, Engine};

use crate::text::{chars_of, concat_chars, text_of};

verus! {

/// The standard, padded Base64 encoding of the UTF-8 bytes of `text`, as
/// `base64`'s `general_purpose::STANDARD` engine writes it.
pub uninterp spec fn base64_standard(text: Seq<char>) -> Seq<char>;

/// The Base64 encoding of the text.
///
/// Trusted: calls `Engine::encode` of `base64::engine::general_purpose::STANDARD`
/// on the text's bytes; the contract only names the outcome
/// `base64_standard`.
#[verifier::external_body]
fn encode_base64(text: &str) -> (r: String)
    ensures
        r@ == base64_standard(text@),
{
    general_purpose::STANDARD.encode(text)
}

/// The value of the header that authenticates the app `client_id` (with an
/// empty secret) when it asks for a token.
pub fn basic_authorization(client_id: &str) -> (r: String)
    ensures
        r@ == "Basic "@ + base64_standard(client_id@ + ":"@),
{
    let id = chars_of(client_id);
    let colon = chars_of(":");
    let credentials = concat_chars(id.as_slice(), colon.as_slice());
    let credentials_text = text_of(credentials.as_slice());
    let encoded = encode_base64(credentials_text.as_str());
    let basic = chars_of("Basic ");
    let e = chars_of(encoded.as_str());
    let r = concat_chars(basic.as_slice(), e.as_slice());
    text_of(r.as_slice())
}

/// The value of the header that presents the access token.
pub fn bearer_authorization(access_token: &str) -> (r: String)
    ensures
        r@ == "Bearer "@ + access_token@,
{
    let b = chars_of("Bearer ");
    let t = chars_of(access_token);
    let r = concat_chars(b.as_slice(), t.as_slice());
    text_of(r.as_slice())
}

} // verus!
