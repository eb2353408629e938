//! Character-sequence utilities shared by the codec and the store:
//! conversions between strings, character vectors and UTF-8 bytes, and
//! the lexicographic order used to sort project listings.

use vstd::prelude::*;
use vstd::std_specs::iter::IteratorSpec;
use vstd::utf8::{decode_utf8, encode_scalar, encode_utf8, valid_utf8};

verus! {

broadcast use vstd::string::group_string_axioms;

/// Collect the characters of a string slice into a vector.
pub fn str_to_chars(s: &str) -> (r: Vec<char>)
    ensures
        r@ == s@,
{
    let mut out: Vec<char> = Vec::new();
    let mut it = s.chars();
    loop
        invariant
            it.decrease() is Some,
            out@ + it.remaining() == s@,
        ensures
            out@ == s@,
        decreases it.decrease()->0,
    {
        match it.next() {
            Some(c) => {
                out.push(c);
                proof {
                    assert(out@ + it.remaining() =~= s@);
                }
            },
            None => {
                proof {
                    assert(out@ =~= s@);
                }
                break ;
            },
        }
    }
    out
}

/// `encode_utf8` distributes over concatenation.
pub proof fn lemma_encode_utf8_concat(a: Seq<char>, b: Seq<char>)
    ensures
        encode_utf8(a + b) == encode_utf8(a) + encode_utf8(b),
    decreases a.len(),
{
    if a.len() == 0 {
        assert(a + b =~= b);
        assert(encode_utf8(a) + encode_utf8(b) =~= encode_utf8(b));
    } else {
        assert((a + b).drop_first() =~= a.drop_first() + b);
        lemma_encode_utf8_concat(a.drop_first(), b);
        assert(encode_utf8(a + b) =~= encode_utf8(a) + encode_utf8(b));
    }
}

/// Extending an encoded prefix by one character appends that character's
/// scalar encoding.
pub proof fn lemma_encode_utf8_snoc(s: Seq<char>, i: int)
    requires
        0 <= i < s.len(),
    ensures
        encode_utf8(s.take(i + 1)) == encode_utf8(s.take(i)) + encode_scalar(s[i] as u32),
{
    vstd::utf8::char_is_scalar(s[i]);
    let single = seq![s[i]];
    assert(s.take(i + 1) =~= s.take(i) + single);
    lemma_encode_utf8_concat(s.take(i), single);
    assert(single.drop_first() =~= Seq::<char>::empty());
    assert(encode_utf8(single) == encode_scalar(single[0] as u32) + encode_utf8(
        single.drop_first(),
    ));
    assert(encode_utf8(single.drop_first()) =~= Seq::<u8>::empty());
    assert(encode_scalar(s[i] as u32) + Seq::<u8>::empty() =~= encode_scalar(s[i] as u32));
}

/// Append the UTF-8 encoding of one character.
pub fn push_utf8_char(out: &mut Vec<u8>, c: char)
    ensures
        final (out)@ == old(out)@ + encode_scalar(c as u32),
{
    proof {
        vstd::utf8::char_is_scalar(c);
    }
    let v = c as u32;
    if v < 0x80 {
        out.push((v & 0x7F) as u8);
        proof {
            assert(final (out)@ =~= old(out)@ + encode_scalar(c as u32));
        }
    } else if v < 0x800 {
        out.push(0xC0 | (((v >> 6) & 0x1F) as u8));
        out.push(0x80 | ((v & 0x3F) as u8));
        proof {
            assert(final (out)@ =~= old(out)@ + encode_scalar(c as u32));
        }
    } else if v < 0x10000 {
        out.push(0xE0 | (((v >> 12) & 0x0F) as u8));
        out.push(0x80 | (((v >> 6) & 0x3F) as u8));
        out.push(0x80 | ((v & 0x3F) as u8));
        proof {
            assert(final (out)@ =~= old(out)@ + encode_scalar(c as u32));
        }
    } else {
        out.push(0xF0 | (((v >> 18) & 0x7) as u8));
        out.push(0x80 | (((v >> 12) & 0x3F) as u8));
        out.push(0x80 | (((v >> 6) & 0x3F) as u8));
        out.push(0x80 | ((v & 0x3F) as u8));
        proof {
            assert(final (out)@ =~= old(out)@ + encode_scalar(c as u32));
        }
    }
}

/// Encode a character vector as UTF-8 bytes.
pub fn chars_to_bytes(v: &Vec<char>) -> (r: Vec<u8>)
    ensures
        r@ == encode_utf8(v@),
{
    let mut out: Vec<u8> = Vec::new();
    let mut i: usize = 0;
    while i < v.len()
        invariant
            i <= v.len(),
            out@ == encode_utf8(v@.take(i as int)),
        decreases v.len() - i,
    {
        push_utf8_char(&mut out, v[i]);
        proof {
            lemma_encode_utf8_snoc(v@, i as int);
        }
        i = i + 1;
    }
    proof {
        assert(v@.take(v@.len() as int) =~= v@);
    }
    out
}

/// Relies on `String::from_utf8`: it succeeds exactly on valid UTF-8 input
/// and returns the string whose bytes are that input; vstd's `decode_utf8`
/// is the model of that decoding.
#[verifier::external_body]
pub fn bytes_to_string(b: &Vec<u8>) -> (r: Option<String>)
    ensures
        r is Some <==> valid_utf8(b@),
        r is Some ==> r->0@ == decode_utf8(b@),
{
    String::from_utf8(b.clone()).ok()
}

/// Build a `String` from a character vector, through its UTF-8 encoding.
pub fn chars_to_string(v: &Vec<char>) -> (r: String)
    ensures
        r@ == v@,
{
    let bytes = chars_to_bytes(v);
    proof {
        vstd::utf8::encode_utf8_valid_utf8(v@);
        vstd::utf8::encode_utf8_decode_utf8(v@);
    }
    match bytes_to_string(&bytes) {
        Some(s) => s,
        None => String::new(),
    }
}

/// Lexicographic order on character sequences by code point, the order in
/// which project listings are returned.
pub open spec fn lex_le(a: Seq<char>, b: Seq<char>) -> bool
    decreases a.len(),
{
    if a.len() == 0 {
        true
    } else if b.len() == 0 {
        false
    } else if a[0] != b[0] {
        (a[0] as u32) < (b[0] as u32)
    } else {
        lex_le(a.drop_first(), b.drop_first())
    }
}

/// The order is reflexive.
pub proof fn lemma_lex_refl(a: Seq<char>)
    ensures
        lex_le(a, a),
    decreases a.len(),
{
    if a.len() > 0 {
        lemma_lex_refl(a.drop_first());
    }
}

/// Any two character sequences are ordered one way or the other.
pub proof fn lemma_lex_total(a: Seq<char>, b: Seq<char>)
    ensures
        lex_le(a, b) || lex_le(b, a),
    decreases a.len(),
{
    if a.len() == 0 {
    } else if b.len() == 0 {
    } else if a[0] != b[0] {
        vstd::utf8::char_u32_cast(a[0], a[0] as u32);
        vstd::utf8::char_u32_cast(b[0], b[0] as u32);
        assert(a[0] as u32 != b[0] as u32);
    } else {
        lemma_lex_total(a.drop_first(), b.drop_first());
    }
}

/// Compare two string slices in the order of `lex_le`.
pub fn str_le(a: &str, b: &str) -> (r: bool)
    ensures
        r == lex_le(a@, b@),
{
    let ca = str_to_chars(a);
    let cb = str_to_chars(b);
    proof {
        assert(a@.skip(0) =~= a@);
        assert(b@.skip(0) =~= b@);
    }
    let mut i: usize = 0;
    loop
        invariant
            i <= ca@.len(),
            i <= cb@.len(),
            ca@ == a@,
            cb@ == b@,
            lex_le(a@, b@) == lex_le(a@.skip(i as int), b@.skip(i as int)),
        ensures
            lex_le(a@, b@) == lex_le(a@.skip(i as int), b@.skip(i as int)),
            i <= a@.len() && i <= b@.len(),
            i >= a@.len() || i >= b@.len() || a@[i as int] != b@[i as int],
        decreases ca@.len() - i,
    {
        if i >= ca.len() {
            break ;
        }
        if i >= cb.len() {
            break ;
        }
        if ca[i] != cb[i] {
            break ;
        }
        proof {
            assert(a@.skip(i as int).drop_first() =~= a@.skip(i + 1));
            assert(b@.skip(i as int).drop_first() =~= b@.skip(i + 1));
            assert(a@.skip(i as int)[0] == a@[i as int]);
            assert(b@.skip(i as int)[0] == b@[i as int]);
        }
        i = i + 1;
    }
    if i >= ca.len() {
        proof {
            assert(a@.skip(i as int).len() == 0);
        }
        true
    } else if i >= cb.len() {
        proof {
            assert(b@.skip(i as int).len() == 0);
            assert(a@.skip(i as int).len() > 0);
        }
        false
    } else {
        proof {
            assert(a@.skip(i as int)[0] == a@[i as int]);
            assert(b@.skip(i as int)[0] == b@[i as int]);
        }
        (ca[i] as u32) < (cb[i] as u32)
    }
}

/// The views of a vector of strings.
pub open spec fn views_of(v: Seq<String>) -> Seq<Seq<char>> {
    v.map_values(|s: String| s@)
}

} // verus!
