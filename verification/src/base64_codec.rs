//! Base64, done by the `base64` crate with its standard alphabet and padding.
use base64::engine::general_purpose::STANDARD;
use base64::Engine;
use vstd::prelude::*;

verus! {

/// The bytes that base64 text stands for; nothing where the text is no base64.
pub uninterp spec fn decoded(text: Seq<char>) -> Option<Seq<u8>>;

/// `Engine::decode` of `base64::engine::general_purpose::STANDARD`.
#[verifier::external_body]
pub(crate) fn decode(text: &str) -> (res: Option<Vec<u8>>)
    ensures
        match res {
            Some(bytes) => decoded(text@) == Some(bytes@),
            None => decoded(text@) is None,
        },
{
    STANDARD.decode(text).ok()
}

/// The base64 text of bytes.
pub uninterp spec fn encoded(bytes: Seq<u8>) -> Seq<char>;

/// `Engine::encode` of `base64::engine::general_purpose::STANDARD`. Decoding what it writes gives
/// the bytes back.
#[verifier::external_body]
pub(crate) fn encode(bytes: &[u8]) -> (res: String)
    ensures
        res@ == encoded(bytes@),
        decoded(res@) == Some(bytes@),
{
    STANDARD.encode(bytes)
}

} // verus!
