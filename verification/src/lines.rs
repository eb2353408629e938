//! Line splitting and whitespace trimming over character sequences, shared
//! by the ignore-pattern matcher and the env-file parser. Whitespace here
//! is the ASCII blank set: space, tab and carriage return.

use vstd::prelude::*;

verus! {

/// The blank characters that trimming removes.
pub open spec fn is_space(c: char) -> bool {
    c == ' ' || c == '\t' || c == '\r'
}

/// A sequence with its leading blanks removed.
pub open spec fn trim_front(s: Seq<char>) -> Seq<char>
    decreases s.len(),
{
    if s.len() > 0 && is_space(s[0]) {
        trim_front(s.drop_first())
    } else {
        s
    }
}

/// A sequence with its trailing blanks removed.
pub open spec fn trim_back(s: Seq<char>) -> Seq<char>
    decreases s.len(),
{
    if s.len() > 0 && is_space(s.last()) {
        trim_back(s.drop_last())
    } else {
        s
    }
}

/// A sequence with blanks removed at both ends.
pub open spec fn trim_spec(s: Seq<char>) -> Seq<char> {
    trim_back(trim_front(s))
}

/// The position of the first occurrence of `c`, or the length.
pub open spec fn first_at(s: Seq<char>, c: char) -> int
    decreases s.len(),
{
    if s.len() == 0 {
        0
    } else if s[0] == c {
        0
    } else {
        1 + first_at(s.drop_first(), c)
    }
}

/// `first_at` points at the first occurrence, or past the end.
pub proof fn lemma_first_at(s: Seq<char>, c: char)
    ensures
        0 <= first_at(s, c) <= s.len(),
        first_at(s, c) < s.len() ==> s[first_at(s, c)] == c,
        forall|j: int| 0 <= j < first_at(s, c) ==> s[j] != c,
    decreases s.len(),
{
    if s.len() > 0 && s[0] != c {
        lemma_first_at(s.drop_first(), c);
        assert(forall|j: int| 1 <= j < first_at(s, c) ==> s[j] == s.drop_first()[j - 1]);
    }
}

/// A scan that stopped at `e` found the first occurrence.
pub proof fn lemma_first_at_is(s: Seq<char>, c: char, e: int)
    requires
        0 <= e <= s.len(),
        forall|j: int| 0 <= j < e ==> s[j] != c,
        e == s.len() || s[e] == c,
    ensures
        first_at(s, c) == e,
    decreases s.len(),
{
    if s.len() == 0 {
    } else if s[0] == c {
        assert(e == 0);
    } else {
        assert(e > 0 || e < s.len());
        assert(e >= 1);
        lemma_first_at_is(s.drop_first(), c, e - 1);
    }
}

/// The lines of a text, split at newlines; a trailing newline closes the
/// last line without opening an empty one.
pub open spec fn lines_of(s: Seq<char>) -> Seq<Seq<char>>
    decreases s.len(),
{
    if s.len() == 0 {
        Seq::empty()
    } else if first_at(s, '\n') == s.len() {
        seq![s]
    } else if 0 <= first_at(s, '\n') < s.len() {
        seq![s.take(first_at(s, '\n'))] + lines_of(s.skip(first_at(s, '\n') + 1))
    } else {
        Seq::empty()
    }
}

/// Leading blanks up to the first non-blank are exactly what `trim_front`
/// removes.
pub proof fn lemma_trim_front_skip(s: Seq<char>, i: int)
    requires
        0 <= i <= s.len(),
        forall|j: int| 0 <= j < i ==> is_space(#[trigger] s[j]),
        i == s.len() || !is_space(s[i]),
    ensures
        trim_front(s) == s.skip(i),
    decreases i,
{
    if i == 0 {
        if s.len() > 0 && is_space(s[0]) {
            assert(false);
        }
        assert(s.skip(0) =~= s);
    } else {
        assert(is_space(s[0]));
        lemma_trim_front_skip(s.drop_first(), i - 1);
        assert(s.drop_first().skip(i - 1) =~= s.skip(i));
    }
}

/// Trailing blanks after the last non-blank are exactly what `trim_back`
/// removes.
pub proof fn lemma_trim_back_take(s: Seq<char>, m: int)
    requires
        0 <= m <= s.len(),
        forall|j: int| m <= j < s.len() ==> is_space(#[trigger] s[j]),
        m == 0 || !is_space(s[m - 1]),
    ensures
        trim_back(s) == s.take(m),
    decreases s.len(),
{
    if m == s.len() {
        if s.len() > 0 && is_space(s.last()) {
            assert(false);
        }
        assert(s.take(m) =~= s);
    } else {
        assert(is_space(s.last()));
        lemma_trim_back_take(s.drop_last(), m);
        assert(s.drop_last().take(m) =~= s.take(m));
    }
}

/// The exec form of `is_space`.
pub fn is_space_exec(c: char) -> (r: bool)
    ensures
        r == is_space(c),
{
    c == ' ' || c == '\t' || c == '\r'
}

/// The bounds of `trim_spec` applied to the range `[start, end)` of `cs`.
pub fn trim_range(cs: &Vec<char>, start: usize, end: usize) -> (r: (usize, usize))
    requires
        start <= end <= cs@.len(),
    ensures
        start <= r.0 <= r.1 <= end,
        cs@.subrange(r.0 as int, r.1 as int) == trim_spec(
            cs@.subrange(start as int, end as int),
        ),
{
    let ghost t0 = cs@.subrange(start as int, end as int);
    let mut a: usize = start;
    while a < end && is_space_exec(cs[a])
        invariant
            start <= a <= end <= cs@.len(),
            forall|j: int| start <= j < a ==> is_space(#[trigger] cs@[j]),
        decreases end - a,
    {
        a = a + 1;
    }
    let mut b: usize = end;
    while b > a && is_space_exec(cs[b - 1])
        invariant
            start <= a <= b <= end <= cs@.len(),
            forall|j: int| start <= j < a ==> is_space(#[trigger] cs@[j]),
            forall|j: int| b <= j < end ==> is_space(#[trigger] cs@[j]),
        decreases b - a,
    {
        b = b - 1;
    }
    proof {
        assert(forall|j: int| 0 <= j < t0.len() ==> t0[j] == cs@[start + j]);
        lemma_trim_front_skip(t0, a - start);
        assert(t0.skip(a - start) =~= cs@.subrange(a as int, end as int));
        let t1 = cs@.subrange(a as int, end as int);
        assert(forall|j: int| 0 <= j < t1.len() ==> t1[j] == cs@[a + j]);
        lemma_trim_back_take(t1, b - a);
        assert(t1.take(b - a) =~= cs@.subrange(a as int, b as int));
    }
    (a, b)
}

/// Copy the range `[a, b)` of `cs` into a fresh vector.
pub fn subrange_vec(cs: &Vec<char>, a: usize, b: usize) -> (r: Vec<char>)
    requires
        a <= b <= cs@.len(),
    ensures
        r@ == cs@.subrange(a as int, b as int),
{
    let mut out: Vec<char> = Vec::new();
    let mut t: usize = a;
    while t < b
        invariant
            a <= t <= b <= cs@.len(),
            out@ == cs@.subrange(a as int, t as int),
        decreases b - t,
    {
        out.push(cs[t]);
        proof {
            assert(out@ =~= cs@.subrange(a as int, t + 1));
        }
        t = t + 1;
    }
    proof {
        assert(out@ =~= cs@.subrange(a as int, b as int));
    }
    out
}

/// Scan from `pos` to the next newline or the end of the text.
pub fn find_newline(cs: &Vec<char>, pos: usize) -> (r: usize)
    requires
        pos <= cs@.len(),
    ensures
        pos <= r <= cs@.len(),
        first_at(cs@.skip(pos as int), '\n') == r - pos,
        r < cs@.len() ==> cs@[r as int] == '\n',
{
    let n = cs.len();
    let mut e: usize = pos;
    while e < n && cs[e] != '\n'
        invariant
            pos <= e <= n,
            n == cs@.len(),
            forall|j: int| pos <= j < e ==> cs@[j] != '\n',
        decreases n - e,
    {
        e = e + 1;
    }
    proof {
        let t = cs@.skip(pos as int);
        assert(forall|j: int| 0 <= j < t.len() ==> t[j] == cs@[pos + j]);
        lemma_first_at_is(t, '\n', e - pos);
    }
    e
}

} // verus!
