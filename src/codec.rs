//! The transfer encoding of file content (standard base64).
use vstd::prelude::*;

verus! {

/// The standard base64 text of `data`.
pub uninterp spec fn base64_of(data: Seq<u8>) -> Seq<char>;

/// The bytes that the text `s` decodes to, or `None` where `s` is not base64.
pub uninterp spec fn base64_decoded(s: Seq<char>) -> Option<Seq<u8>>;

/// Relies on `base64::encode` (standard alphabet, padded): the text depends
/// on the bytes alone, the empty input gives the empty text, and decoding the
/// text gives the bytes back.
#[verifier::external_body]
pub(crate) fn encode_base64(data: &Vec<u8>) -> (r: String)
    ensures
        r@ == base64_of(data@),
        data@.len() == 0 ==> r@.len() == 0,
        base64_decoded(r@) == Some(data@),
{
    base64::encode(data)
}

/// Relies on `base64::decode` (standard alphabet): the bytes, or `None`
/// where the text is not valid base64.
#[verifier::external_body]
pub(crate) fn decode_base64(s: &str) -> (r: Option<Vec<u8>>)
    ensures
        match r {
            Some(v) => base64_decoded(s@) == Some(v@),
            None => base64_decoded(s@) is None,
        },
{
    base64::decode(s).ok()
}

} // verus!
