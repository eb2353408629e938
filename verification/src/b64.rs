//! Trusted wrappers around base64's standard padded engine, which encodes
//! the binary fields of a stored envelope.

use base64::engine::general_purpose::STANDARD;
use base64::Engine;
use vstd::prelude::*;

verus! {

/// The standard padded base64 rendering of a byte sequence, as base64's
/// `STANDARD` engine produces it: a pure function of the bytes.
pub uninterp spec fn b64_of(bytes: Seq<u8>) -> Seq<char>;

/// Relies on base64's `STANDARD` engine `encode`, named `b64_of` here.
#[verifier::external_body]
pub fn b64_encode(data: &Vec<u8>) -> (r: String)
    ensures
        r@ == b64_of(data@),
{
    STANDARD.encode(data.as_slice())
}

/// Relies on base64's `STANDARD` engine `decode`: configured to require
/// canonical padding and reject stray trailing bits, it accepts exactly the
/// strings that `encode` produces, and inverts it on them.
#[verifier::external_body]
pub fn b64_decode(s: &str) -> (r: Option<Vec<u8>>)
    ensures
        r is Some ==> s@ == b64_of(r->0@),
        forall|b: Seq<u8>| s@ == #[trigger] b64_of(b) ==> r is Some && r->0@ == b,
{
    STANDARD.decode(s.as_bytes()).ok()
}

} // verus!
