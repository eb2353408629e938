//! The ignore-pattern check that guards exports: whether a path is covered
//! by an ignore file's patterns, with a small `*`/`?` wildcard matcher.

use crate::lines::{lines_of, subrange_vec, trim_range, trim_spec};
use crate::text::str_to_chars;
use vstd::prelude::*;

verus! {

/// `p` is a prefix of `s`.
pub open spec fn starts_with(s: Seq<char>, p: Seq<char>) -> bool {
    p.len() <= s.len() && s.take(p.len() as int) == p
}

/// `p` is a suffix of `s`.
pub open spec fn ends_with(s: Seq<char>, p: Seq<char>) -> bool {
    p.len() <= s.len() && s.skip(s.len() - p.len()) == p
}

/// The path with every leading `./` removed.
pub open spec fn strip_dot_slash(s: Seq<char>) -> Seq<char>
    decreases s.len(),
{
    if s.len() >= 2 && s[0] == '.' && s[1] == '/' {
        strip_dot_slash(s.skip(2))
    } else {
        s
    }
}

/// The wildcard language: `*` matches any run of characters, `?` any one
/// character, anything else itself; the whole text must be consumed.
pub open spec fn wild_matches(text: Seq<char>, pat: Seq<char>) -> bool
    decreases text.len() + pat.len(),
{
    if pat.len() == 0 {
        text.len() == 0
    } else if pat[0] == '*' {
        wild_matches(text, pat.drop_first()) || (text.len() > 0 && wild_matches(
            text.drop_first(),
            pat,
        ))
    } else if text.len() == 0 {
        false
    } else {
        (pat[0] == '?' || pat[0] == text[0]) && wild_matches(text.drop_first(), pat.drop_first())
    }
}

/// One trimmed ignore line covers the path: a directory prefix pattern, an
/// exact name, a wildcard pattern, or a bare-suffix `*` pattern. Blank
/// lines and comments cover nothing.
pub open spec fn line_ignores(path: Seq<char>, rawline: Seq<char>) -> bool {
    let pat = trim_spec(rawline);
    if pat.len() == 0 {
        false
    } else if pat[0] == '#' {
        false
    } else {
        ||| (pat.last() == '/' && starts_with(path, pat.drop_last()))
        ||| pat == path
        ||| wild_matches(path, pat)
        ||| (pat[0] == '*' && ends_with(path, pat.drop_first()))
    }
}

/// Some line of the ignore file covers the `./`-stripped path.
pub open spec fn ignored_spec(path_raw: Seq<char>, content: Seq<char>) -> bool {
    exists|k: int|
        0 <= k < lines_of(content).len() && line_ignores(
            strip_dot_slash(path_raw),
            #[trigger] lines_of(content)[k],
        )
}

/// Wildcard matching from the given positions onward, exactly the language
/// of `wild_matches` on the remaining text and pattern.
pub fn wildcard_match(text: &Vec<char>, pattern: &Vec<char>, text_idx: usize, pattern_idx: usize) -> (r:
    bool)
    requires
        text_idx <= text@.len(),
        pattern_idx <= pattern@.len(),
    ensures
        r == wild_matches(text@.skip(text_idx as int), pattern@.skip(pattern_idx as int)),
    decreases (text@.len() - text_idx) + (pattern@.len() - pattern_idx),
{
    proof {
        assert(text@.skip(text_idx as int).len() == text@.len() - text_idx);
        assert(pattern@.skip(pattern_idx as int).len() == pattern@.len() - pattern_idx);
        if pattern_idx < pattern@.len() {
            assert(pattern@.skip(pattern_idx as int)[0] == pattern@[pattern_idx as int]);
            assert(pattern@.skip(pattern_idx as int).drop_first() =~= pattern@.skip(
                pattern_idx + 1,
            ));
        }
        if text_idx < text@.len() {
            assert(text@.skip(text_idx as int)[0] == text@[text_idx as int]);
            assert(text@.skip(text_idx as int).drop_first() =~= text@.skip(text_idx + 1));
        }
    }
    if pattern_idx == pattern.len() {
        return text_idx == text.len();
    }
    let c = pattern[pattern_idx];
    if c == '*' {
        // either the star matches nothing, or it consumes one character
        wildcard_match(text, pattern, text_idx, pattern_idx + 1) || (text_idx < text.len()
            && wildcard_match(text, pattern, text_idx + 1, pattern_idx))
    } else if text_idx == text.len() {
        false
    } else {
        (c == '?' || c == text[text_idx]) && wildcard_match(
            text,
            pattern,
            text_idx + 1,
            pattern_idx + 1,
        )
    }
}

/// Whether the whole text matches the whole wildcard pattern.
pub fn matches_wildcard_pattern(text: &str, pattern: &str) -> (r: bool)
    ensures
        r == wild_matches(text@, pattern@),
{
    let tc = str_to_chars(text);
    let pc = str_to_chars(pattern);
    proof {
        assert(tc@.skip(0) =~= text@);
        assert(pc@.skip(0) =~= pattern@);
    }
    wildcard_match(&tc, &pc, 0, 0)
}

/// `p` occurs at the front of `s`.
fn has_prefix(s: &Vec<char>, p: &Vec<char>, pn: usize) -> (r: bool)
    requires
        pn <= p@.len(),
    ensures
        r == starts_with(s@, p@.take(pn as int)),
{
    if pn > s.len() {
        return false;
    }
    let mut k: usize = 0;
    while k < pn
        invariant
            k <= pn <= p@.len(),
            pn <= s@.len(),
            forall|j: int| 0 <= j < k ==> s@[j] == p@[j],
        decreases pn - k,
    {
        if s[k] != p[k] {
            proof {
                assert(!starts_with(s@, p@.take(pn as int))) by {
                    if starts_with(s@, p@.take(pn as int)) {
                        assert(s@.take(pn as int)[k as int] == p@.take(pn as int)[k as int]);
                    }
                }
            }
            return false;
        }
        k = k + 1;
    }
    proof {
        assert(s@.take(pn as int) =~= p@.take(pn as int));
    }
    true
}

/// The suffix of `p` from `from` occurs at the end of `s`.
fn has_suffix(s: &Vec<char>, p: &Vec<char>, from: usize) -> (r: bool)
    requires
        from <= p@.len(),
    ensures
        r == ends_with(s@, p@.skip(from as int)),
{
    let np = p.len();
    let m = np - from;
    let ns = s.len();
    if m > ns {
        return false;
    }
    let off = ns - m;
    let mut k: usize = 0;
    while k < m
        invariant
            k <= m,
            np == p@.len(),
            ns == s@.len(),
            from <= np,
            m == np - from,
            m <= ns,
            off == ns - m,
            forall|j: int| 0 <= j < k ==> s@[off + j] == #[trigger] p@[from + j],
        decreases m - k,
    {
        if s[off + k] != p[from + k] {
            proof {
                assert(!ends_with(s@, p@.skip(from as int))) by {
                    if ends_with(s@, p@.skip(from as int)) {
                        assert(s@.skip(off as int)[k as int] == p@.skip(from as int)[k as int]);
                        assert(s@.skip(off as int)[k as int] == s@[off + k]);
                        assert(p@.skip(from as int)[k as int] == p@[from + k]);
                    }
                }
            }
            return false;
        }
        k = k + 1;
    }
    proof {
        assert forall|j: int|
            0 <= j < m implies s@.skip(off as int)[j] == p@.skip(from as int)[j] by {
            assert(s@[off + j] == p@[from + j]);
        }
        assert(s@.skip(off as int) =~= p@.skip(from as int));
    }
    true
}

/// Whether the line `[ls, le)` of `content` covers the path.
fn line_check(path: &Vec<char>, content: &Vec<char>, ls: usize, le: usize) -> (r: bool)
    requires
        ls <= le <= content@.len(),
    ensures
        r == line_ignores(path@, content@.subrange(ls as int, le as int)),
{
    let (a, b) = trim_range(content, ls, le);
    let pat = subrange_vec(content, a, b);
    proof {
        assert(pat@ == trim_spec(content@.subrange(ls as int, le as int)));
    }
    let pn = pat.len();
    if pn == 0 {
        return false;
    }
    if pat[0] == '#' {
        return false;
    }
    let mut hit = false;
    if pat[pn - 1] == '/' {
        if has_prefix(path, &pat, pn - 1) {
            proof {
                assert(pat@.take(pn - 1) =~= pat@.drop_last());
            }
            hit = true;
        }
    }
    proof {
        assert(pat@.take(pn - 1) =~= pat@.drop_last());
    }
    if !hit && pn == path.len() {
        if has_prefix(path, &pat, pn) {
            proof {
                assert(pat@.take(pn as int) =~= pat@);
                assert(path@.take(pn as int) =~= path@);
                assert(pat@ == path@);
            }
            hit = true;
        }
    }
    proof {
        if pat@ == path@ {
            assert(pat@.len() == path@.len());
            assert(starts_with(path@, pat@.take(pat@.len() as int))) by {
                assert(pat@.take(pat@.len() as int) =~= pat@);
                assert(path@.take(pat@.len() as int) =~= path@);
            }
        }
    }
    if !hit {
        proof {
            assert(path@.skip(0) =~= path@);
            assert(pat@.skip(0) =~= pat@);
        }
        if wildcard_match(path, &pat, 0, 0) {
            hit = true;
        }
    }
    if !hit && pat[0] == '*' {
        if has_suffix(path, &pat, 1) {
            proof {
                assert(pat@.skip(1) =~= pat@.drop_first());
            }
            hit = true;
        }
    }
    proof {
        assert(pat@.skip(1) =~= pat@.drop_first());
    }
    hit
}

/// Whether any line of `content` from position `pos` onward covers the
/// path.
fn ignored_from(path: &Vec<char>, content: &Vec<char>, pos: usize) -> (r: bool)
    requires
        pos <= content@.len(),
    ensures
        r == exists|k: int|
            0 <= k < lines_of(content@.skip(pos as int)).len() && line_ignores(
                path@,
                #[trigger] lines_of(content@.skip(pos as int))[k],
            ),
    decreases content@.len() - pos,
{
    let n = content.len();
    if pos == n {
        proof {
            assert(content@.skip(pos as int).len() == 0);
        }
        return false;
    }
    let e = crate::lines::find_newline(content, pos);
    let ghost rem = content@.skip(pos as int);
    let hit = line_check(path, content, pos, e);
    proof {
        assert(rem.take(e - pos) =~= content@.subrange(pos as int, e as int));
    }
    if hit {
        proof {
            if e == n {
                assert(lines_of(rem) =~= seq![rem]);
                assert(rem =~= content@.subrange(pos as int, e as int));
                assert(lines_of(rem)[0] == content@.subrange(pos as int, e as int));
            } else {
                assert(lines_of(rem)[0] == rem.take(e - pos));
            }
        }
        return true;
    }
    if e == n {
        proof {
            assert(lines_of(rem) =~= seq![rem]);
            assert(rem =~= content@.subrange(pos as int, e as int));
        }
        return false;
    }
    let rest = ignored_from(path, content, e + 1);
    proof {
        assert(rem.skip(e - pos + 1) =~= content@.skip(e + 1));
        assert(lines_of(rem) =~= seq![rem.take(e - pos)] + lines_of(content@.skip(e + 1)));
        let tail_lines = lines_of(content@.skip(e + 1));
        if rest {
            let k0 = choose|k0: int|
                0 <= k0 < tail_lines.len() && line_ignores(path@, #[trigger] tail_lines[k0]);
            assert(lines_of(rem)[k0 + 1] == tail_lines[k0]);
        } else {
            assert forall|k: int|
                0 <= k < lines_of(rem).len() implies !line_ignores(
                path@,
                #[trigger] lines_of(rem)[k],
            ) by {
                if k == 0 {
                    assert(lines_of(rem)[0] == rem.take(e - pos));
                } else {
                    assert(lines_of(rem)[k] == tail_lines[k - 1]);
                }
            }
        }
    }
    rest
}

/// Whether the ignore file's patterns cover the path, after stripping any
/// leading `./` from it.
pub fn is_file_ignored(file_path: &str, gitignore_content: &str) -> (r: bool)
    ensures
        r == ignored_spec(file_path@, gitignore_content@),
{
    let cs = str_to_chars(file_path);
    let nc = cs.len();
    let mut st: usize = 0;
    proof {
        assert(cs@.skip(0) =~= cs@);
    }
    while nc - st >= 2 && cs[st] == '.' && cs[st + 1] == '/'
        invariant
            st <= nc,
            nc == cs@.len(),
            cs@ == file_path@,
            strip_dot_slash(cs@) == strip_dot_slash(cs@.skip(st as int)),
        decreases cs@.len() - st,
    {
        proof {
            assert(cs@.skip(st as int)[0] == cs@[st as int]);
            assert(cs@.skip(st as int)[1] == cs@[st + 1]);
            assert(cs@.skip(st as int).skip(2) =~= cs@.skip(st + 2));
        }
        st = st + 2;
    }
    proof {
        let t = cs@.skip(st as int);
        if t.len() >= 2 {
            assert(t[0] == cs@[st as int] && t[1] == cs@[st + 1]);
        }
        assert(strip_dot_slash(t) == t);
    }
    let path = subrange_vec(&cs, st, cs.len());
    proof {
        assert(path@ =~= cs@.skip(st as int));
    }
    let content = str_to_chars(gitignore_content);
    proof {
        assert(content@.skip(0) =~= content@);
    }
    ignored_from(&path, &content, 0)
}

} // verus!
