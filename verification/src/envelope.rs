//! The on-disk envelope codec: an encrypted project is stored as a
//! pretty-printed JSON object with the three fields `encrypted_data`,
//! `salt` and `nonce`, in that order. The parser accepts exactly what the
//! serializer emits and inverts it.

use crate::json::{
    begins_at, lemma_begins_chars, lemma_begins_concat, lemma_begins_join, match_lit, parse_quoted,
    push_lit, push_quoted, quoted,
};
use crate::models::{EncryptedProject, EnvelopeView};
use crate::text::{chars_to_string, str_to_chars};
use vstd::prelude::*;

verus! {

/// The serialized text of a stored envelope.
pub open spec fn ser_envelope(e: EnvelopeView) -> Seq<char> {
    "{\n  \"encrypted_data\": "@ + quoted(e.encrypted_data) + ",\n  \"salt\": "@ + quoted(e.salt)
        + ",\n  \"nonce\": "@ + quoted(e.nonce) + "\n}"@
}

/// Offset of the `salt` key in a serialized envelope.
pub open spec fn eoff2(e: EnvelopeView) -> int {
    "{\n  \"encrypted_data\": "@.len() + quoted(e.encrypted_data).len() as int
}

/// Offset of the `nonce` key in a serialized envelope.
pub open spec fn eoff4(e: EnvelopeView) -> int {
    eoff2(e) + ",\n  \"salt\": "@.len() + quoted(e.salt).len() as int
}

/// Offset of the closing of a serialized envelope.
pub open spec fn eoff6(e: EnvelopeView) -> int {
    eoff4(e) + ",\n  \"nonce\": "@.len() + quoted(e.nonce).len() as int
}

/// Serialize an envelope to its on-disk text.
pub fn serialize_envelope(env: &EncryptedProject) -> (r: String)
    ensures
        r@ == ser_envelope(env@),
{
    let mut out: Vec<char> = Vec::new();
    push_lit(&mut out, "{\n  \"encrypted_data\": ");
    let ct_chars = str_to_chars(env.encrypted_data.as_str());
    push_quoted(&mut out, &ct_chars);
    push_lit(&mut out, ",\n  \"salt\": ");
    let salt_chars = str_to_chars(env.salt.as_str());
    push_quoted(&mut out, &salt_chars);
    push_lit(&mut out, ",\n  \"nonce\": ");
    let nonce_chars = str_to_chars(env.nonce.as_str());
    push_quoted(&mut out, &nonce_chars);
    push_lit(&mut out, "\n}");
    proof {
        assert(out@ =~= ser_envelope(env@));
    }
    chars_to_string(&out)
}

/// Where each part of a serialized envelope stands in the text.
proof fn lemma_envelope_parts(s: Seq<char>, e: EnvelopeView)
    requires
        s == ser_envelope(e),
    ensures
        begins_at(s, 0, "{\n  \"encrypted_data\": "@),
        begins_at(s, "{\n  \"encrypted_data\": "@.len() as int, quoted(e.encrypted_data)),
        begins_at(s, eoff2(e), ",\n  \"salt\": "@),
        begins_at(s, eoff2(e) + ",\n  \"salt\": "@.len(), quoted(e.salt)),
        begins_at(s, eoff4(e), ",\n  \"nonce\": "@),
        begins_at(s, eoff4(e) + ",\n  \"nonce\": "@.len(), quoted(e.nonce)),
        begins_at(s, eoff6(e), "\n}"@),
        s.len() == eoff6(e) + "\n}"@.len(),
{
    let a1 = "{\n  \"encrypted_data\": "@ + quoted(e.encrypted_data);
    let a2 = a1 + ",\n  \"salt\": "@;
    let a3 = a2 + quoted(e.salt);
    let a4 = a3 + ",\n  \"nonce\": "@;
    let a5 = a4 + quoted(e.nonce);
    assert(s.subrange(0, s.len() as int) =~= s);
    assert(begins_at(s, 0, a5 + "\n}"@));
    lemma_begins_concat(s, 0, a5, "\n}"@);
    lemma_begins_concat(s, 0, a4, quoted(e.nonce));
    lemma_begins_concat(s, 0, a3, ",\n  \"nonce\": "@);
    lemma_begins_concat(s, 0, a2, quoted(e.salt));
    lemma_begins_concat(s, 0, a1, ",\n  \"salt\": "@);
    lemma_begins_concat(s, 0, "{\n  \"encrypted_data\": "@, quoted(e.encrypted_data));
}

/// Parse the on-disk text of an envelope. Succeeds on exactly the texts
/// `serialize_envelope` produces, and inverts it on them.
pub fn parse_envelope(text: &str) -> (r: Option<EncryptedProject>)
    ensures
        r is Some ==> text@ == ser_envelope(r->0@),
        forall|e: EnvelopeView| text@ == #[trigger] ser_envelope(e) ==> r is Some && r->0@ == e,
{
    let s = str_to_chars(text);
    let n = s.len();
    proof {
        assert forall|e: EnvelopeView| text@ == #[trigger] ser_envelope(e) implies {
            &&& begins_at(s@, 0, "{\n  \"encrypted_data\": "@)
            &&& begins_at(
                s@,
                "{\n  \"encrypted_data\": "@.len() as int,
                quoted(e.encrypted_data),
            )
            &&& begins_at(s@, eoff2(e), ",\n  \"salt\": "@)
            &&& begins_at(s@, eoff2(e) + ",\n  \"salt\": "@.len(), quoted(e.salt))
            &&& begins_at(s@, eoff4(e), ",\n  \"nonce\": "@)
            &&& begins_at(s@, eoff4(e) + ",\n  \"nonce\": "@.len(), quoted(e.nonce))
            &&& begins_at(s@, eoff6(e), "\n}"@)
            &&& s@.len() == eoff6(e) + "\n}"@.len()
        } by {
            lemma_envelope_parts(s@, e);
        }
    }
    let lit1 = str_to_chars("{\n  \"encrypted_data\": ");
    if !match_lit(&s, 0, &lit1) {
        return None;
    }
    let j1 = lit1.len();
    let ct_parse = parse_quoted(&s, j1);
    if ct_parse.is_none() {
        return None;
    }
    let (ct_chars, j2) = ct_parse.unwrap();
    let lit2 = str_to_chars(",\n  \"salt\": ");
    if !match_lit(&s, j2, &lit2) {
        return None;
    }
    let j3 = j2 + lit2.len();
    let salt_parse = parse_quoted(&s, j3);
    if salt_parse.is_none() {
        return None;
    }
    let (salt_chars, j4) = salt_parse.unwrap();
    let lit3 = str_to_chars(",\n  \"nonce\": ");
    if !match_lit(&s, j4, &lit3) {
        return None;
    }
    let j5 = j4 + lit3.len();
    let nonce_parse = parse_quoted(&s, j5);
    if nonce_parse.is_none() {
        return None;
    }
    let (nonce_chars, j6) = nonce_parse.unwrap();
    let lit4 = str_to_chars("\n}");
    if !match_lit(&s, j6, &lit4) {
        return None;
    }
    let j7 = j6 + lit4.len();
    if j7 != n {
        return None;
    }
    let env = EncryptedProject {
        encrypted_data: chars_to_string(&ct_chars),
        salt: chars_to_string(&salt_chars),
        nonce: chars_to_string(&nonce_chars),
    };
    proof {
        let b1 = "{\n  \"encrypted_data\": "@;
        let b2 = ",\n  \"salt\": "@;
        let b3 = ",\n  \"nonce\": "@;
        let b4 = "\n}"@;
        let pct = quoted(ct_chars@);
        let psalt = quoted(salt_chars@);
        let pnonce = quoted(nonce_chars@);
        lemma_begins_join(s@, 0, b1, pct);
        lemma_begins_join(s@, 0, b1 + pct, b2);
        lemma_begins_join(s@, 0, b1 + pct + b2, psalt);
        lemma_begins_join(s@, 0, b1 + pct + b2 + psalt, b3);
        lemma_begins_join(s@, 0, b1 + pct + b2 + psalt + b3, pnonce);
        lemma_begins_join(s@, 0, b1 + pct + b2 + psalt + b3 + pnonce, b4);
        let whole = b1 + pct + b2 + psalt + b3 + pnonce + b4;
        assert(whole.len() == j7);
        assert(s@.subrange(0, j7 as int) =~= s@);
        assert(s@ == whole);
        assert(ser_envelope(env@) == whole);
        assert(text@ == ser_envelope(env@));
    }
    Some(env)
}

} // verus!
