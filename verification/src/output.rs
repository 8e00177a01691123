//! Decoding of the base64 payloads that screenshots and PDFs arrive in.

use vstd::prelude::*;
use base64::Engine;

verus! {

/// `base64::DecodeError`, carried opaquely.
#[verifier::external_type_specification]
#[verifier::external_body]
pub struct ExDecodeError(base64::DecodeError);

/// The name for what the standard base64 engine decodes a text into:
/// `None` when it is not valid padded standard base64.
pub uninterp spec fn base64_decoded(data: Seq<char>) -> Option<Seq<u8>>;

/// Calls `base64::engine::general_purpose::STANDARD.decode` on the text.
/// Claimed: success and the bytes are a function of the text alone, named
/// by `base64_decoded`. The alphabet and padding rules are not stated.
#[verifier::external_body]
fn decode_standard(data: &str) -> (r: Result<Vec<u8>, base64::DecodeError>)
    ensures
        match r {
            Ok(v) => base64_decoded(data@) == Some(v@),
            Err(_) => base64_decoded(data@) is None,
        },
{
    base64::engine::general_purpose::STANDARD.decode(data)
}

/// A capture response could not be turned into file contents.
#[derive(Debug, PartialEq, Eq, Structural)]
pub enum CaptureError {
    /// The response has no `data` text.
    MissingData,
    /// The `data` text is not valid base64.
    BadBase64,
}

/// The file contents a capture response carries in its `data` text.
pub fn capture_bytes(data: Option<&str>) -> (r: Result<Vec<u8>, CaptureError>)
    ensures
        match data {
            None => r == Err::<Vec<u8>, CaptureError>(CaptureError::MissingData),
            Some(d) => match base64_decoded(d@) {
                Some(bytes) => r matches Ok(v) && v@ == bytes,
                None => r == Err::<Vec<u8>, CaptureError>(CaptureError::BadBase64),
            },
        },
{
    match data {
        None => Err(CaptureError::MissingData),
        Some(d) => match decode_standard(d) {
            Ok(v) => Ok(v),
            Err(_) => Err(CaptureError::BadBase64),
        },
    }
}

} // verus!
