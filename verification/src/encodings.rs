//! Text encoding at the system boundary: template files and the existing
//! output are decoded from, and the new output is encoded to, the single
//! configured encoding. The conversion itself is encoding_rs's work; here
//! each direction is named and wrapped.

use vstd::prelude::*;

verus! {

/// Whether encoding_rs knows an encoding under this label.
pub uninterp spec fn encoding_label_known(label: Seq<char>) -> bool;

/// The text encoding_rs decodes `bytes` to under the encoding of `label`
/// (with replacement characters, never failing).
pub uninterp spec fn decoded_text(label: Seq<char>, bytes: Seq<u8>) -> Seq<char>;

/// The bytes encoding_rs encodes `text` to under the encoding of `label`.
pub uninterp spec fn encoded_bytes(label: Seq<char>, text: Seq<char>) -> Seq<u8>;

/// Relies on encoding_rs::Encoding::for_label to resolve the label and
/// Encoding::decode to decode the bytes; both depend on their arguments
/// alone.
#[verifier::external_body]
fn decode_with(label: &str, bytes: &Vec<u8>) -> (r: Option<String>)
    ensures
        r is Some <==> encoding_label_known(label@),
        r matches Some(s) ==> s@ == decoded_text(label@, bytes@),
{
    match encoding_rs::Encoding::for_label(label.as_bytes()) {
        Some(enc) => {
            let (text, _, _) = enc.decode(bytes.as_slice());
            Some(text.into_owned())
        },
        None => None,
    }
}

/// Relies on encoding_rs::Encoding::for_label to resolve the label and
/// Encoding::encode to encode the text; both depend on their arguments
/// alone.
#[verifier::external_body]
fn encode_with(label: &str, text: &str) -> (r: Option<Vec<u8>>)
    ensures
        r is Some <==> encoding_label_known(label@),
        r matches Some(b) ==> b@ == encoded_bytes(label@, text@),
{
    match encoding_rs::Encoding::for_label(label.as_bytes()) {
        Some(enc) => {
            let (bytes, _, _) = enc.encode(text);
            Some(bytes.into_owned())
        },
        None => None,
    }
}

/// Decodes raw file bytes under the configured encoding; `None` exactly
/// when the label names no known encoding.
pub fn decode_bytes(label: &str, bytes: &Vec<u8>) -> (r: Option<String>)
    ensures
        r is Some <==> encoding_label_known(label@),
        r matches Some(s) ==> s@ == decoded_text(label@, bytes@),
{
    decode_with(label, bytes)
}

/// Encodes output text under the configured encoding; `None` exactly when
/// the label names no known encoding.
pub fn encode_text(label: &str, text: &str) -> (r: Option<Vec<u8>>)
    ensures
        r is Some <==> encoding_label_known(label@),
        r matches Some(b) ==> b@ == encoded_bytes(label@, text@),
{
    encode_with(label, text)
}

/// Whether the label names a known encoding.
pub fn encoding_known(label: &str) -> (r: bool)
    ensures
        r == encoding_label_known(label@),
{
    let empty: Vec<u8> = Vec::new();
    decode_with(label, &empty).is_some()
}

} // verus!
