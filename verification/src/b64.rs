//! Base64 with the standard alphabet and padding.

use crate::text::{all_white, trim, trimmed, trimmed_of_padded};
use base64::Engine;
use vstd::prelude::*;

verus! {

/// The text of the bytes in the standard base64 alphabet, with padding.
pub uninterp spec fn base64_of(data: Seq<u8>) -> Seq<char>;

/// The bytes that a base64 text stands for, if it is one.
pub uninterp spec fn base64_bytes(s: Seq<char>) -> Option<Seq<u8>>;

/// The characters of the standard alphabet, and the one that pads.
pub open spec fn base64_char(c: char) -> bool {
    ('A' <= c <= 'Z') || ('a' <= c <= 'z') || ('0' <= c <= '9') || c == '+' || c == '/' || c == '='
}

/// `base64::Engine::encode` on the standard engine: the padded base64 text of
/// `data`, four characters for every three bytes begun, each of the standard
/// alphabet or the padding sign. Decoding the text gives the bytes back.
#[verifier::external_body]
fn encode(data: &[u8]) -> (s: String)
    ensures
        s@ == base64_of(data@),
        s@.len() == (data@.len() + 2) / 3 * 4,
        forall|i: int| 0 <= i < s@.len() ==> base64_char(#[trigger] s@[i]),
        base64_bytes(s@) == Some(data@),
{
    base64::engine::general_purpose::STANDARD.encode(data)
}

/// `base64::Engine::decode` on the standard engine: the bytes that the text
/// stands for, or nothing where it is no padded base64 text.
#[verifier::external_body]
fn decode(s: &str) -> (r: Option<Vec<u8>>)
    ensures
        match r {
            Some(v) => base64_bytes(s@) == Some(v@),
            None => base64_bytes(s@) is None,
        },
{
    base64::engine::general_purpose::STANDARD.decode(s).ok()
}

/// The text reads back as the bytes, also with white space around it.
pub fn encode_b64(data: &[u8]) -> (s: String)
    ensures
        s@ == base64_of(data@),
        s@.len() == (data@.len() + 2) / 3 * 4,
        forall|i: int| 0 <= i < s@.len() ==> base64_char(#[trigger] s@[i]),
        base64_bytes(s@) == Some(data@),
        base64_bytes(trimmed(s@)) == Some(data@),
        forall|a: Seq<char>, b: Seq<char>|
            all_white(a) && all_white(b) ==> base64_bytes(trimmed(#[trigger] (a + s@ + b))) == Some(
                data@,
            ),
{
    let s = encode(data);
    proof {
        if s@.len() > 0 {
            assert(base64_char(s@[0]));
            assert(base64_char(s@[s@.len() - 1]));
        }
        assert(trimmed(s@) == s@);
        assert forall|a: Seq<char>, b: Seq<char>| all_white(a) && all_white(b) implies base64_bytes(
            trimmed(#[trigger] (a + s@ + b)),
        ) == Some(data@) by {
            trimmed_of_padded(a, s@, b);
        }
    }
    s
}

/// White space around the text is passed over.
pub fn decode_b64(s: &str) -> (r: Result<Vec<u8>, String>)
    ensures
        match r {
            Ok(v) => base64_bytes(trimmed(s@)) == Some(v@),
            Err(e) => base64_bytes(trimmed(s@)) is None && e@ == "invalid base64"@,
        },
{
    match decode(trim(s).as_str()) {
        Some(v) => Ok(v),
        None => Err("invalid base64".to_owned()),
    }
}

} // verus!
