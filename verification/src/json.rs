//! The JSON string escaping used by both persisted formats, together with a
//! verified writer and a verified strict parser for quoted strings.
//!
//! Escaping follows the JSON rules for the payloads this vault writes:
//! `"` and `\` get a backslash escape, control characters become `\u00xy`
//! with lowercase hex digits, and every other character stands for itself.
//! The parser accepts exactly the strings the writer produces, which the
//! determinism lemmas below make precise.

use crate::text::str_to_chars;
use vstd::prelude::*;

verus! {

/// The lowercase hex digit for a value below 16.
pub open spec fn hex_char(n: u8) -> char
    recommends
        n < 16,
{
    if n < 10 {
        ((0x30 + n) as u8) as char
    } else {
        ((0x57 + n) as u8) as char
    }
}

/// Characters that JSON requires to be escaped numerically.
pub open spec fn is_ctrl(c: char) -> bool {
    (c as u32) < 0x20
}

/// The escape sequence a single character serializes to.
pub open spec fn esc_char(c: char) -> Seq<char> {
    if c == '"' {
        seq!['\\', '"']
    } else if c == '\\' {
        seq!['\\', '\\']
    } else if is_ctrl(c) {
        seq![
            '\\',
            'u',
            '0',
            '0',
            hex_char(((c as u32) / 16) as u8),
            hex_char(((c as u32) % 16) as u8),
        ]
    } else {
        seq![c]
    }
}

/// The escaped form of a whole character sequence.
pub open spec fn escape_seq(s: Seq<char>) -> Seq<char>
    decreases s.len(),
{
    if s.len() == 0 {
        Seq::empty()
    } else {
        esc_char(s[0]) + escape_seq(s.drop_first())
    }
}

/// A JSON string token: the escaped content between double quotes.
pub open spec fn quoted(s: Seq<char>) -> Seq<char> {
    seq!['"'] + escape_seq(s) + seq!['"']
}

/// `t` occurs in `s` starting at position `i`.
pub open spec fn begins_at(s: Seq<char>, i: int, t: Seq<char>) -> bool {
    0 <= i && i + t.len() <= s.len() && s.subrange(i, i + t.len()) == t
}

/// `escape_seq` distributes over concatenation.
pub proof fn lemma_escape_concat(a: Seq<char>, b: Seq<char>)
    ensures
        escape_seq(a + b) == escape_seq(a) + escape_seq(b),
    decreases a.len(),
{
    if a.len() == 0 {
        assert(a + b =~= b);
        assert(escape_seq(a) + escape_seq(b) =~= escape_seq(b));
    } else {
        assert((a + b).drop_first() =~= a.drop_first() + b);
        lemma_escape_concat(a.drop_first(), b);
        assert(escape_seq(a + b) =~= escape_seq(a) + escape_seq(b));
    }
}

/// Escaping one more character appends that character's escape sequence.
pub proof fn lemma_escape_snoc(s: Seq<char>, i: int)
    requires
        0 <= i < s.len(),
    ensures
        escape_seq(s.take(i + 1)) == escape_seq(s.take(i)) + esc_char(s[i]),
{
    let single = seq![s[i]];
    assert(s.take(i + 1) =~= s.take(i) + single);
    lemma_escape_concat(s.take(i), single);
    assert(single.drop_first() =~= Seq::<char>::empty());
    assert(escape_seq(single) == esc_char(single[0]) + escape_seq(single.drop_first()));
    assert(escape_seq(single) =~= esc_char(s[i]));
}

/// No escape sequence starts with a double quote.
proof fn lemma_esc_head_not_quote(c: char)
    ensures
        esc_char(c).len() > 0,
        esc_char(c)[0] != '"',
{
}

/// Two escape sequences that read the same text escape the same character.
proof fn lemma_esc_char_determined(a: char, b: char, x: Seq<char>, y: Seq<char>)
    requires
        esc_char(a) + x == esc_char(b) + y,
    ensures
        a == b,
        x == y,
{
    let u = esc_char(a) + x;
    assert(u == esc_char(b) + y);
    if esc_char(a).len() == 1 && esc_char(b).len() == 1 {
        assert(u[0] == a && u[0] == b);
        assert(x =~= u.skip(1) && y =~= u.skip(1));
    } else if esc_char(a).len() == 1 {
        assert(u[0] == a && u[0] == '\\');
        assert(false);
    } else if esc_char(b).len() == 1 {
        assert(u[0] == b && u[0] == '\\');
        assert(false);
    } else {
        // both escaped forms start with a backslash; the second character
        // separates the three kinds
        if a == '"' || a == '\\' {
            if b == '"' || b == '\\' {
                assert(u[1] == esc_char(a)[1] && u[1] == esc_char(b)[1]);
                assert(a == b);
                assert(x =~= u.skip(2) && y =~= u.skip(2));
            } else {
                assert(u[1] == esc_char(a)[1] && u[1] == 'u');
                assert(false);
            }
        } else {
            if b == '"' || b == '\\' {
                assert(u[1] == 'u' && u[1] == esc_char(b)[1]);
                assert(false);
            } else {
                // both numeric escapes: the hex digits pin the code point
                let va = a as u32;
                let vb = b as u32;
                assert(u[4] == hex_char((va / 16) as u8) && u[4] == hex_char((vb / 16) as u8));
                assert(u[5] == hex_char((va % 16) as u8) && u[5] == hex_char((vb % 16) as u8));
                lemma_hex_char_injective((va / 16) as u8, (vb / 16) as u8);
                lemma_hex_char_injective((va % 16) as u8, (vb % 16) as u8);
                assert(va == vb);
                assert(a == b);
                assert(x =~= u.skip(6) && y =~= u.skip(6));
            }
        }
    }
}

/// Distinct values below 16 have distinct hex digits.
proof fn lemma_hex_char_injective(m: u8, n: u8)
    requires
        m < 16,
        n < 16,
        hex_char(m) == hex_char(n),
    ensures
        m == n,
{
    assert(hex_char(m) as u32 == if m < 10 {
        0x30 + m as u32
    } else {
        0x57 + m as u32
    });
    assert(hex_char(n) as u32 == if n < 10 {
        0x30 + n as u32
    } else {
        0x57 + n as u32
    });
}

/// If an escaped prefix and a whole quoted body read the same text, the
/// prefix is a prefix of the body and the text continues with the body's
/// remainder.
pub proof fn lemma_escape_step(p: Seq<char>, c: Seq<char>, tail: Seq<char>, rest: Seq<char>)
    requires
        escape_seq(p) + tail == escape_seq(c) + seq!['"'] + rest,
    ensures
        p.len() <= c.len(),
        p == c.take(p.len() as int),
        tail == escape_seq(c.skip(p.len() as int)) + seq!['"'] + rest,
    decreases p.len(),
{
    if p.len() == 0 {
        assert(escape_seq(p) + tail =~= tail);
        assert(c.skip(0) =~= c);
        assert(p =~= c.take(0));
    } else {
        if c.len() == 0 {
            let u = escape_seq(p) + tail;
            assert(escape_seq(p) == esc_char(p[0]) + escape_seq(p.drop_first()));
            lemma_esc_head_not_quote(p[0]);
            assert(u[0] == esc_char(p[0])[0]);
            assert(escape_seq(c) + seq!['"'] + rest =~= seq!['"'] + rest);
            assert(u[0] == '"');
            assert(false);
        } else {
            assert(escape_seq(p) == esc_char(p[0]) + escape_seq(p.drop_first()));
            assert(escape_seq(c) == esc_char(c[0]) + escape_seq(c.drop_first()));
            assert(esc_char(p[0]) + (escape_seq(p.drop_first()) + tail) =~= esc_char(c[0]) + (
            escape_seq(c.drop_first()) + seq!['"'] + rest)) by {
                assert(esc_char(p[0]) + (escape_seq(p.drop_first()) + tail) =~= escape_seq(p)
                    + tail);
                assert(esc_char(c[0]) + (escape_seq(c.drop_first()) + seq!['"'] + rest)
                    =~= escape_seq(c) + seq!['"'] + rest);
            }
            lemma_esc_char_determined(
                p[0],
                c[0],
                escape_seq(p.drop_first()) + tail,
                escape_seq(c.drop_first()) + seq!['"'] + rest,
            );
            lemma_escape_step(p.drop_first(), c.drop_first(), tail, rest);
            assert(p =~= c.take(p.len() as int)) by {
                assert(p.drop_first() == c.drop_first().take(p.len() - 1));
                assert(forall|k: int|
                    0 <= k < p.len() ==> p[k] == #[trigger] c.take(p.len() as int)[k]) by {
                    assert(forall|k: int|
                        1 <= k < p.len() ==> p[k] == p.drop_first()[k - 1] && #[trigger] c.take(
                            p.len() as int,
                        )[k] == c.drop_first().take(p.len() - 1)[k - 1]);
                }
            }
            assert(c.drop_first().skip(p.len() - 1) =~= c.skip(p.len() as int));
        }
    }
}

/// The exec form of `hex_char`.
fn hex_char_exec(n: u8) -> (r: char)
    requires
        n < 16,
    ensures
        r == hex_char(n),
{
    if n < 10 {
        (0x30 + n) as char
    } else {
        (0x57 + n) as char
    }
}

/// Append the escaped content of `s` (no quotes) to `out`.
pub fn push_escaped(out: &mut Vec<char>, s: &Vec<char>)
    ensures
        final (out)@ == old(out)@ + escape_seq(s@),
{
    let ghost base = out@;
    let mut i: usize = 0;
    while i < s.len()
        invariant
            i <= s@.len(),
            out@ == base + escape_seq(s@.take(i as int)),
        decreases s@.len() - i,
    {
        let c = s[i];
        let v = c as u32;
        if c == '"' {
            out.push('\\');
            out.push('"');
        } else if c == '\\' {
            out.push('\\');
            out.push('\\');
        } else if v < 0x20 {
            out.push('\\');
            out.push('u');
            out.push('0');
            out.push('0');
            out.push(hex_char_exec((v / 16) as u8));
            out.push(hex_char_exec((v % 16) as u8));
        } else {
            out.push(c);
        }
        proof {
            lemma_escape_snoc(s@, i as int);
            assert(out@ =~= base + escape_seq(s@.take(i + 1)));
        }
        i = i + 1;
    }
    proof {
        assert(s@.take(s@.len() as int) =~= s@);
    }
}

/// Append a full JSON string token for `s` to `out`.
pub fn push_quoted(out: &mut Vec<char>, s: &Vec<char>)
    ensures
        final (out)@ == old(out)@ + quoted(s@),
{
    let ghost base = out@;
    out.push('"');
    push_escaped(out, s);
    out.push('"');
    proof {
        assert(out@ =~= base + quoted(s@));
    }
}

/// Append the characters of `lit` to `out`.
pub fn push_lit(out: &mut Vec<char>, lit: &str)
    ensures
        final (out)@ == old(out)@ + lit@,
{
    let ghost base = out@;
    let cs = str_to_chars(lit);
    let mut i: usize = 0;
    while i < cs.len()
        invariant
            i <= cs@.len(),
            cs@ == lit@,
            out@ == base + cs@.take(i as int),
        decreases cs@.len() - i,
    {
        out.push(cs[i]);
        proof {
            assert(cs@.take(i + 1) =~= cs@.take(i as int) + seq![cs@[i as int]]);
            assert(out@ =~= base + cs@.take(i + 1));
        }
        i = i + 1;
    }
    proof {
        assert(cs@.take(cs@.len() as int) =~= cs@);
    }
}

/// Does `lit` occur in `s` at position `i`?
pub fn match_lit(s: &Vec<char>, i: usize, lit: &Vec<char>) -> (r: bool)
    requires
        i <= s@.len(),
    ensures
        r == begins_at(s@, i as int, lit@),
{
    let n = s.len();
    if n - i < lit.len() {
        return false;
    }
    let mut k: usize = 0;
    while k < lit.len()
        invariant
            k <= lit@.len(),
            n == s@.len(),
            i + lit@.len() <= n,
            forall|t: int| 0 <= t < k ==> s@[i + t] == lit@[t],
        decreases lit@.len() - k,
    {
        if s[i + k] != lit[k] {
            proof {
                assert(!begins_at(s@, i as int, lit@)) by {
                    if begins_at(s@, i as int, lit@) {
                        assert(s@.subrange(i as int, i + lit@.len())[k as int] == lit@[k as int]);
                    }
                }
            }
            return false;
        }
        k = k + 1;
    }
    proof {
        assert(s@.subrange(i as int, i + lit@.len()) =~= lit@);
    }
    true
}

/// Splitting an occurrence of a concatenation.
pub proof fn lemma_begins_concat(s: Seq<char>, i: int, a: Seq<char>, b: Seq<char>)
    requires
        begins_at(s, i, a + b),
    ensures
        begins_at(s, i, a),
        begins_at(s, i + a.len(), b),
{
    lemma_begins_chars(s, i, a + b);
    assert(s.subrange(i, i + a.len()) =~= a) by {
        assert(forall|k: int| 0 <= k < a.len() ==> s[i + k] == #[trigger] (a + b)[k]);
        assert(forall|k: int| 0 <= k < a.len() ==> #[trigger] (a + b)[k] == a[k]);
    }
    assert forall|k: int|
        0 <= k < b.len() implies #[trigger] s.subrange(i + a.len(), i + a.len() + b.len())[k]
        == b[k] by {
        assert(s.subrange(i + a.len(), i + a.len() + b.len())[k] == s[i + a.len() + k]);
        assert((a + b)[a.len() + k] == b[k]);
        assert(s[i + a.len() + k] == (a + b)[a.len() + k]);
    }
    assert(s.subrange(i + a.len(), i + a.len() + b.len()) =~= b);
}

/// Joining two adjacent occurrences into one.
pub proof fn lemma_begins_join(s: Seq<char>, i: int, a: Seq<char>, b: Seq<char>)
    requires
        begins_at(s, i, a),
        begins_at(s, i + a.len(), b),
    ensures
        begins_at(s, i, a + b),
{
    assert(s.subrange(i, i + a.len() + b.len()) =~= a + b) by {
        assert(forall|k: int|
            0 <= k < a.len() ==> #[trigger] s.subrange(i, i + a.len() + b.len())[k]
                == s.subrange(i, i + a.len())[k]);
        assert(forall|k: int|
            a.len() <= k < a.len() + b.len() ==> #[trigger] s.subrange(i, i + a.len() + b.len())[k]
                == s.subrange(i + a.len(), i + a.len() + b.len())[k - a.len()]);
    }
}


/// What the text must look like at position `j` when a quoted body still
/// has the characters `t` left to supply before its closing quote.
proof fn lemma_continuation(s: Seq<char>, j: int, t: Seq<char>)
    requires
        begins_at(s, j, escape_seq(t) + seq!['"']),
    ensures
        t.len() == 0 ==> j < s.len() && s[j] == '"',
        t.len() > 0 ==> begins_at(s, j, esc_char(t[0])) && j + esc_char(t[0]).len() + 1 <= s.len(),
{
    if t.len() == 0 {
        assert(escape_seq(t) + seq!['"'] =~= seq!['"']);
        assert(s.subrange(j, j + 1) =~= seq!['"']);
        assert(s[j] == s.subrange(j, j + 1)[0]);
    } else {
        assert(escape_seq(t) == esc_char(t[0]) + escape_seq(t.drop_first()));
        assert(escape_seq(t) + seq!['"'] =~= esc_char(t[0]) + (escape_seq(t.drop_first())
            + seq!['"']));
        lemma_begins_concat(s, j, esc_char(t[0]), escape_seq(t.drop_first()) + seq!['"']);
        assert((escape_seq(t.drop_first()) + seq!['"']).len() >= 1);
    }
}

/// The characters an occurrence pins down, one by one.
pub proof fn lemma_begins_chars(s: Seq<char>, j: int, t: Seq<char>)
    requires
        begins_at(s, j, t),
    ensures
        forall|k: int| 0 <= k < t.len() ==> s[j + k] == #[trigger] t[k],
{
    assert forall|k: int| 0 <= k < t.len() implies s[j + k] == #[trigger] t[k] by {
        assert(s.subrange(j, j + t.len())[k] == s[j + k]);
    }
}

/// After consuming the canonical escape of `d`, the parser's output still
/// mirrors the consumed input.
proof fn lemma_escape_grow(s: Seq<char>, i: int, j: int, out: Seq<char>, d: char)
    requires
        out.len() > 0,
        out[out.len() - 1] == d,
        0 <= i,
        i + 1 <= j - esc_char(d).len(),
        j <= s.len(),
        s.subrange(i + 1, j - esc_char(d).len()) == escape_seq(out.take(out.len() - 1)),
        s.subrange(j - esc_char(d).len(), j) == esc_char(d),
    ensures
        s.subrange(i + 1, j) == escape_seq(out),
{
    lemma_escape_concat(out.take(out.len() - 1), seq![d]);
    assert(out.take(out.len() - 1) + seq![d] =~= out);
    assert(escape_seq(seq![d]) == esc_char(seq![d][0]) + escape_seq(seq![d].drop_first()));
    assert(seq![d].drop_first() =~= Seq::<char>::empty());
    assert(escape_seq(seq![d]) =~= esc_char(d));
    assert(s.subrange(i + 1, j) =~= s.subrange(i + 1, j - esc_char(d).len()) + s.subrange(
        j - esc_char(d).len(),
        j,
    ));
}

/// If a quoted body occurs at `i` and the parser has faithfully consumed up
/// to `j`, the parsed output is a prefix of the body and the body's
/// remainder follows at `j`.
proof fn lemma_quoted_hypothesis(s: Seq<char>, i: int, j: int, out: Seq<char>, c: Seq<char>)
    requires
        begins_at(s, i, quoted(c)),
        i < j <= s.len(),
        s.subrange(i + 1, j) == escape_seq(out),
    ensures
        out.len() <= c.len(),
        out == c.take(out.len() as int),
        begins_at(s, j, escape_seq(c.skip(out.len() as int)) + seq!['"']),
{
    let after = s.skip(i + 1);
    assert(after =~= escape_seq(out) + s.skip(j)) by {
        assert(forall|k: int|
            0 <= k < j - i - 1 ==> #[trigger] after[k] == s.subrange(i + 1, j)[k]);
        assert(forall|k: int|
            j - i - 1 <= k < after.len() ==> #[trigger] after[k] == s.skip(j)[k - (j - i - 1)]);
    }
    let qlen = quoted(c).len() as int;
    let ec = escape_seq(c);
    assert(after =~= ec + seq!['"'] + s.skip(i + qlen)) by {
        lemma_begins_chars(s, i, quoted(c));
        assert(qlen == ec.len() + 2);
        assert forall|k: int| 0 <= k < ec.len() implies after[k] == #[trigger] ec[k] by {
            assert(after[k] == s[i + 1 + k]);
            assert(s[i + 1 + k] == quoted(c)[1 + k]);
            assert(quoted(c)[1 + k] == ec[k]);
        }
        assert(after[ec.len() as int] == '"') by {
            assert(after[ec.len() as int] == s[i + 1 + ec.len()]);
            assert(s[i + 1 + ec.len()] == quoted(c)[1 + ec.len() as int]);
            assert(quoted(c)[1 + ec.len() as int] == '"');
        }
        assert forall|k: int|
            ec.len() + 1 <= k < after.len() implies after[k] == #[trigger] s.skip(i + qlen)[k
            - ec.len() - 1] by {
            assert(after[k] == s[i + 1 + k]);
            assert(s.skip(i + qlen)[k - ec.len() - 1] == s[i + qlen + k - ec.len() - 1]);
        }
        assert(forall|k: int|
            0 <= k < ec.len() + 1 ==> #[trigger] (ec + seq!['"'] + s.skip(i + qlen))[k] == (ec
                + seq!['"'])[k]);
    }
    lemma_escape_step(out, c, s.skip(j), s.skip(i + qlen));
    let t = c.skip(out.len() as int);
    let cont = escape_seq(t) + seq!['"'];
    assert(s.skip(j) == cont + s.skip(i + qlen));
    assert(j + cont.len() <= s.len());
    assert(s.subrange(j, j + cont.len()) =~= cont) by {
        assert(forall|k: int|
            0 <= k < cont.len() ==> #[trigger] s.subrange(j, j + cont.len())[k] == s.skip(j)[k]);
        assert(forall|k: int| 0 <= k < cont.len() ==> #[trigger] s.skip(j)[k] == cont[k]);
    }
}

/// The exec inverse of `hex_char`; 255 marks a character that is no
/// lowercase hex digit.
fn unhex(c: char) -> (r: u8)
    ensures
        r < 16 ==> c == hex_char(r),
        r == 255 ==> forall|n: u8| n < 16 ==> c != hex_char(n),
        r < 16 || r == 255,
{
    let v = c as u32;
    if 0x30 <= v && v <= 0x39 {
        (v - 0x30) as u8
    } else if 0x61 <= v && v <= 0x66 {
        (v - 0x57) as u8
    } else {
        assert(forall|n: u8| n < 16 ==> c != hex_char(n)) by {
            assert(forall|n: u8|
                n < 16 ==> (#[trigger] hex_char(n)) as u32 == if n < 10 {
                    0x30 + n as u32
                } else {
                    0x57 + n as u32
                });
        }
        255
    }
}

/// Parse a strict JSON string token at position `i`: the token must start
/// with a double quote, use only the canonical escapes of `esc_char`, and
/// end at the first unescaped double quote. Returns the unescaped content
/// and the position just past the closing quote. It succeeds on exactly
/// the tokens `push_quoted` writes, and inverts them.
pub fn parse_quoted(s: &Vec<char>, i: usize) -> (r: Option<(Vec<char>, usize)>)
    requires
        i <= s@.len(),
    ensures
        r is Some ==> i < (r->0).1 <= s@.len() && s@.subrange(i as int, (r->0).1 as int) == quoted(
            (r->0).0@,
        ),
        forall|c: Seq<char>|
            begins_at(s@, i as int, #[trigger] quoted(c)) ==> r is Some && (r->0).0@ == c && (r->0).1
                == i + quoted(c).len(),
{
    if i >= s.len() || s[i] != '"' {
        proof {
            assert forall|c: Seq<char>| !begins_at(s@, i as int, #[trigger] quoted(c)) by {
                if begins_at(s@, i as int, quoted(c)) {
                    lemma_begins_chars(s@, i as int, quoted(c));
                    assert(s@[i as int] == quoted(c)[0]);
                }
            }
        }
        return None;
    }
    let mut j: usize = i + 1;
    let mut out: Vec<char> = Vec::new();
    loop
        invariant
            i < j <= s@.len(),
            i < s@.len() && s@[i as int] == '"',
            s@.subrange(i + 1, j as int) == escape_seq(out@),
        decreases s@.len() - j,
    {
        proof {
            assert forall|c: Seq<char>|
                begins_at(s@, i as int, #[trigger] quoted(c)) implies out@.len() <= c.len() && out@
                == c.take(out@.len() as int) && begins_at(
                s@,
                j as int,
                escape_seq(c.skip(out@.len() as int)) + seq!['"'],
            ) by {
                lemma_quoted_hypothesis(s@, i as int, j as int, out@, c);
            }
        }
        if j >= s.len() {
            proof {
                assert forall|c: Seq<char>| !begins_at(s@, i as int, #[trigger] quoted(c)) by {
                    if begins_at(s@, i as int, quoted(c)) {
                        let t = c.skip(out@.len() as int);
                        lemma_continuation(s@, j as int, t);
                    }
                }
            }
            return None;
        }
        let ch = s[j];
        if ch == '"' {
            let jj = j + 1;
            proof {
                assert(s@.subrange(i as int, jj as int) =~= quoted(out@)) by {
                    assert(s@.subrange(i as int, jj as int) =~= seq!['"'] + s@.subrange(
                        i + 1,
                        j as int,
                    ) + seq!['"']);
                }
                assert forall|c: Seq<char>|
                    begins_at(s@, i as int, #[trigger] quoted(c)) implies out@ == c && jj == i
                    + quoted(c).len() by {
                    let t = c.skip(out@.len() as int);
                    lemma_continuation(s@, j as int, t);
                    if t.len() == 0 {
                        assert(out@ =~= c);
                        assert(quoted(c).len() == 2 + escape_seq(c).len());
                    } else {
                        lemma_begins_chars(s@, j as int, esc_char(t[0]));
                        lemma_esc_head_not_quote(t[0]);
                        assert(s@[j as int] == esc_char(t[0])[0]);
                        assert(false);
                    }
                }
            }
            return Some((out, jj));
        } else if ch == '\\' {
            if j + 1 >= s.len() {
                proof {
                    assert forall|c: Seq<char>| !begins_at(s@, i as int, #[trigger] quoted(c)) by {
                        if begins_at(s@, i as int, quoted(c)) {
                            let t = c.skip(out@.len() as int);
                            lemma_continuation(s@, j as int, t);
                            if t.len() == 0 {
                                assert(s@[j as int] == '"');
                            } else {
                                lemma_begins_chars(s@, j as int, esc_char(t[0]));
                                if t[0] == '"' || t[0] == '\\' || is_ctrl(t[0]) {
                                    assert(j + esc_char(t[0]).len() + 1 <= s@.len());
                                } else {
                                    assert(esc_char(t[0])[0] == t[0]);
                                        assert(s@[j as int] == esc_char(t[0])[0]);
                                }
                            }
                        }
                    }
                }
                return None;
            }
            let e = s[j + 1];
            if e == '"' || e == '\\' {
                proof {
                    assert(s@.subrange(j as int, j + 2) =~= esc_char(e)) by {
                        assert(s@.subrange(j as int, j + 2) =~= seq!['\\', e]);
                    }
                }
                let ghost prev = out@;
                out.push(e);
                j = j + 2;
                proof {
                    assert(out@.take(out@.len() - 1) =~= prev);
                    lemma_escape_grow(s@, i as int, j as int, out@, e);
                }
            } else if e == 'u' {
                if s.len() - j < 6 {
                    proof {
                        assert forall|c: Seq<char>|
                            !begins_at(s@, i as int, #[trigger] quoted(c)) by {
                            if begins_at(s@, i as int, quoted(c)) {
                                let t = c.skip(out@.len() as int);
                                lemma_continuation(s@, j as int, t);
                                if t.len() == 0 {
                                    assert(s@[j as int] == '"');
                                } else {
                                    lemma_begins_chars(s@, j as int, esc_char(t[0]));
                                    if is_ctrl(t[0]) && t[0] != '"' && t[0] != '\\' {
                                        assert(j + 7 <= s@.len());
                                    } else if t[0] == '"' || t[0] == '\\' {
                                        assert(s@[j + 1] == esc_char(t[0])[1]);
                                    } else {
                                        assert(esc_char(t[0])[0] == t[0]);
                                        assert(s@[j as int] == esc_char(t[0])[0]);
                                    }
                                }
                            }
                        }
                    }
                    return None;
                }
                let d2 = s[j + 2];
                let d3 = s[j + 3];
                let h1 = s[j + 4];
                let h2 = s[j + 5];
                let v1 = unhex(h1);
                let v2 = unhex(h2);
                let ok = d2 == '0' && d3 == '0' && v1 < 16 && v2 < 16 && v1 * 16 + v2 < 0x20;
                if ok {
                    let v: u8 = v1 * 16 + v2;
                    let dc = v as char;
                    proof {
                        assert(dc as u32 == v);
                        assert(esc_char(dc) =~= seq!['\\', 'u', '0', '0', h1, h2]) by {
                            assert(((dc as u32) / 16) as u8 == v1);
                            assert(((dc as u32) % 16) as u8 == v2);
                        }
                        assert(s@.subrange(j as int, j + 6) =~= esc_char(dc));
                    }
                    let ghost prev = out@;
                    out.push(dc);
                    j = j + 6;
                    proof {
                        assert(out@.take(out@.len() - 1) =~= prev);
                        lemma_escape_grow(s@, i as int, j as int, out@, dc);
                    }
                } else {
                    proof {
                        assert forall|c: Seq<char>|
                            !begins_at(s@, i as int, #[trigger] quoted(c)) by {
                            if begins_at(s@, i as int, quoted(c)) {
                                let t = c.skip(out@.len() as int);
                                lemma_continuation(s@, j as int, t);
                                if t.len() == 0 {
                                    assert(s@[j as int] == '"');
                                } else {
                                    lemma_begins_chars(s@, j as int, esc_char(t[0]));
                                    if is_ctrl(t[0]) && t[0] != '"' && t[0] != '\\' {
                                        let va = t[0] as u32;
                                        assert(s@[j + 2] == '0' && s@[j + 3] == '0');
                                        assert(h1 == hex_char((va / 16) as u8));
                                        assert(h2 == hex_char((va % 16) as u8));
                                        assert(v1 < 16 && v2 < 16) by {
                                            assert(va / 16 < 16 && va % 16 < 16);
                                        }
                                        lemma_hex_char_injective(v1, (va / 16) as u8);
                                        lemma_hex_char_injective(v2, (va % 16) as u8);
                                        assert(v1 * 16 + v2 == va);
                                        assert(va < 0x20);
                                    } else if t[0] == '"' || t[0] == '\\' {
                                        assert(s@[j + 1] == esc_char(t[0])[1]);
                                    } else {
                                        assert(esc_char(t[0])[0] == t[0]);
                                        assert(s@[j as int] == esc_char(t[0])[0]);
                                    }
                                }
                            }
                        }
                    }
                    return None;
                }
            } else {
                proof {
                    assert forall|c: Seq<char>| !begins_at(s@, i as int, #[trigger] quoted(c)) by {
                        if begins_at(s@, i as int, quoted(c)) {
                            let t = c.skip(out@.len() as int);
                            lemma_continuation(s@, j as int, t);
                            if t.len() == 0 {
                                assert(s@[j as int] == '"');
                            } else {
                                lemma_begins_chars(s@, j as int, esc_char(t[0]));
                                if t[0] == '"' || t[0] == '\\' || is_ctrl(t[0]) {
                                    assert(s@[j + 1] == esc_char(t[0])[1]);
                                } else {
                                    assert(esc_char(t[0])[0] == t[0]);
                                        assert(s@[j as int] == esc_char(t[0])[0]);
                                }
                            }
                        }
                    }
                }
                return None;
            }
        } else {
            let v = ch as u32;
            if v < 0x20 {
                proof {
                    assert forall|c: Seq<char>| !begins_at(s@, i as int, #[trigger] quoted(c)) by {
                        if begins_at(s@, i as int, quoted(c)) {
                            let t = c.skip(out@.len() as int);
                            lemma_continuation(s@, j as int, t);
                            if t.len() == 0 {
                                assert(s@[j as int] == '"');
                            } else {
                                lemma_begins_chars(s@, j as int, esc_char(t[0]));
                                if t[0] == '"' || t[0] == '\\' || is_ctrl(t[0]) {
                                    assert(s@[j as int] == '\\');
                                } else {
                                    assert(esc_char(t[0])[0] == t[0]);
                                        assert(s@[j as int] == esc_char(t[0])[0]);
                                }
                            }
                        }
                    }
                }
                return None;
            }
            proof {
                assert(s@.subrange(j as int, j + 1) =~= esc_char(ch)) by {
                    assert(s@.subrange(j as int, j + 1) =~= seq![ch]);
                }
            }
            let ghost prev = out@;
            out.push(ch);
            j = j + 1;
            proof {
                assert(out@.take(out@.len() - 1) =~= prev);
                lemma_escape_grow(s@, i as int, j as int, out@, ch);
            }
        }
    }
}

} // verus!
