//! The Decoder: reverses the document obfuscation, a standard
//! binary-to-text encoding, and reads the decoded bytes as UTF-8 text.

use vstd::prelude::*;
use vstd::utf8::{valid_utf8, decode_utf8, encode_utf8, encode_utf8_valid_utf8,
    encode_utf8_decode_utf8};
use base64::Engine;
use crate::errors::PlanError;

verus! {

/// The canonical encoding, with padding, of a byte sequence under the
/// scheme the decoder reverses: what base64's `STANDARD` engine `encode`
/// returns.
pub uninterp spec fn b64_of(bytes: Seq<u8>) -> Seq<char>;

/// What base64's `STANDARD` engine `decode` returns for an input: the
/// decoded bytes, or nothing where the input is not valid encoded data.
pub uninterp spec fn b64_decoding(s: Seq<char>) -> Option<Seq<u8>>;

/// A decode outcome `out` for the input `s` inverts the encoding: where
/// `s` is the canonical encoding of some bytes, `out` holds exactly
/// those bytes — so a `None` outcome means no bytes encode to `s`.
pub open spec fn inverts_encoding(s: Seq<char>, out: Option<Seq<u8>>) -> bool {
    forall|b: Seq<u8>| s == b64_of(b) ==> out == Some(b)
}

/// Relies on base64's `STANDARD` engine `decode`. Its result depends on
/// the input alone. The engine requires canonical padding and refuses
/// trailing bits, so it accepts exactly the canonical encodings: on
/// success the input is the canonical encoding of the returned bytes,
/// and every canonical encoding is accepted — `decode` inverts the
/// engine's `encode`.
#[verifier::external_body]
fn b64_decode(s: &str) -> (r: Option<Vec<u8>>)
    ensures
        match r {
            Some(v) => b64_decoding(s@) == Some(v@) && s@ == b64_of(v@) && inverts_encoding(
                s@,
                Some(v@),
            ),
            None => b64_decoding(s@) is None && inverts_encoding(s@, None),
        },
{
    base64::engine::general_purpose::STANDARD.decode(s).ok()
}

/// Relies on `String::from_utf8`: it succeeds exactly on valid UTF-8 and
/// returns its decoding, as vstd's UTF-8 model states both.
#[verifier::external_body]
fn string_from_utf8(bytes: Vec<u8>) -> (r: Option<String>)
    ensures
        r matches Some(t) ==> valid_utf8(bytes@) && t@ == decode_utf8(bytes@),
        r is None ==> !valid_utf8(bytes@),
{
    String::from_utf8(bytes).ok()
}

/// Recovers the document text from its obfuscated form. Fails with
/// `DecodeError` where the input is not valid encoded data, and with
/// `EncodingError` where the decoded bytes are not valid UTF-8. The
/// second `ensures` clause is the round trip: the encoding of any text
/// decodes back to exactly that text.
pub fn deobfuscation(text: &str) -> (r: Result<String, PlanError>)
    ensures
        match r {
            Ok(t) => b64_decoding(text@) matches Some(b) && valid_utf8(b) && t@ == decode_utf8(b),
            Err(PlanError::DecodeError) => b64_decoding(text@) is None,
            Err(PlanError::EncodingError) => b64_decoding(text@) matches Some(b) && !valid_utf8(b),
            Err(_) => false,
        },
        forall|t: Seq<char>| text@ == b64_of(encode_utf8(t)) ==> (r matches Ok(d) && d@ == t),
{
    match b64_decode(text) {
        None => Err(PlanError::DecodeError),
        Some(bytes) => {
            let ghost bv = bytes@;
            match string_from_utf8(bytes) {
                None => {
                    proof {
                        assert forall|t: Seq<char>| text@ == b64_of(encode_utf8(t)) implies false by {
                            assert(bv == encode_utf8(t));
                            encode_utf8_valid_utf8(t);
                        }
                    }
                    Err(PlanError::EncodingError)
                },
                Some(out) => {
                    proof {
                        assert forall|t: Seq<char>| text@ == b64_of(encode_utf8(t)) implies out@
                            == t by {
                            assert(bv == encode_utf8(t));
                            encode_utf8_decode_utf8(t);
                        }
                    }
                    Ok(out)
                },
            }
        },
    }
}

} // verus!
