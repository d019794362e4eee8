//! Repair of names that were decoded under the wrong legacy 8-bit encoding.
use vstd::prelude::*;
use vstd::utf8::{decode_utf8, valid_utf8};

use crate::error::PipelineError;

verus! {

/// What the `encoding` crate makes of `name` under the encoding labelled
/// `label`: `None` when it knows no such label, `Some(None)` when `name` has a
/// character that the encoding cannot represent, else the encoded bytes.
pub uninterp spec fn legacy_encoded(label: Seq<char>, name: Seq<char>) -> Option<Option<Seq<u8>>>;

/// Relies on `encoding::label::encoding_from_whatwg_label` to find the
/// encoding, and on its `Encoding::encode` with `EncoderTrap::Strict` to
/// encode `name`. The two calls stand together because the encoding found is
/// a trait object, which cannot leave this body.
#[verifier::external_body]
fn encode_legacy(label: &str, name: &str) -> (r: Option<Option<Vec<u8>>>)
    ensures
        match legacy_encoded(label@, name@) {
            None => r is None,
            Some(None) => r == Some(None::<Vec<u8>>),
            Some(Some(b)) => r matches Some(Some(v)) && v@ == b,
        },
{
    encoding::label::encoding_from_whatwg_label(label).map(
        |enc| enc.encode(name, encoding::EncoderTrap::Strict).ok(),
    )
}

/// Relies on `String::from_utf8`: the text that `bytes` encode in UTF-8, if
/// they are valid UTF-8.
#[verifier::external_body]
fn utf8_text(bytes: Vec<u8>) -> (r: Option<String>)
    ensures
        r is Some <==> valid_utf8(bytes@),
        r matches Some(s) ==> s@ == decode_utf8(bytes@),
{
    String::from_utf8(bytes).ok()
}

/// The stage that repairs names mis-decoded under a legacy encoding.
pub struct Decode {
    /// The label of the encoding (`latin1`, `windows-1252`, ...).
    pub from_encoding: String,
}

/// What `decode` returns: `None` for an unknown label; the name read back
/// from its bytes under that encoding as UTF-8 where that succeeds; else the
/// name unchanged.
pub open spec fn decode_spec(name: Seq<char>, label: Seq<char>) -> Option<Seq<char>> {
    match legacy_encoded(label, name) {
        None => None,
        Some(None) => Some(name),
        Some(Some(b)) => if valid_utf8(b) {
            Some(decode_utf8(b))
        } else {
            Some(name)
        },
    }
}

/// Encodes `name` under the encoding labelled `encoding` and reads the bytes
/// back as UTF-8. Where either step fails the name comes back unchanged; an
/// unknown label is an error.
pub fn decode(name: &str, encoding: &str) -> (r: Result<String, PipelineError>)
    ensures
        r is Err <==> decode_spec(name@, encoding@) is None,
        r matches Ok(s) ==> Some(s@) == decode_spec(name@, encoding@),
        r is Err ==> (r matches Err(PipelineError::UnknownEncoding { label }) && label@
            == encoding@),
{
    match encode_legacy(encoding, name) {
        None => Err(PipelineError::UnknownEncoding { label: encoding.to_string() }),
        Some(None) => Ok(name.to_string()),
        Some(Some(bytes)) => match utf8_text(bytes) {
            Some(s) => Ok(s),
            None => Ok(name.to_string()),
        },
    }
}

} // verus!
