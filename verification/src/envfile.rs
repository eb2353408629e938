//! Parsing env-format text into key-value pairs: one `KEY=VALUE` per line,
//! blanks and `#` comments skipped, values stripped of one pair of
//! matching quotes, later lines overwriting earlier keys.

use crate::lines::{first_at, lines_of, subrange_vec, trim_range, trim_spec};
use crate::models::pairs_view;
use crate::text::{chars_to_string, str_to_chars};
use vstd::prelude::*;

verus! {

/// The key-value pair one raw line contributes, if any: the trimmed text
/// left and right of the first `=`, the value stripped of one pair of
/// matching single or double quotes; blank lines, comments, lines without
/// `=` and empty keys contribute nothing.
pub open spec fn line_entry(rawline: Seq<char>) -> Option<(Seq<char>, Seq<char>)> {
    let t = trim_spec(rawline);
    if t.len() == 0 {
        None
    } else if t[0] == '#' {
        None
    } else if first_at(t, '=') == t.len() {
        None
    } else {
        let e = first_at(t, '=');
        let key = trim_spec(t.take(e));
        let val0 = trim_spec(t.skip(e + 1));
        let val = if val0.len() >= 2 && ((val0[0] == '"' && val0.last() == '"') || (val0[0] == '\''
            && val0.last() == '\'')) {
            val0.subrange(1, val0.len() - 1)
        } else {
            val0
        };
        if key.len() == 0 {
            None
        } else {
            Some((key, val))
        }
    }
}

/// Insert or overwrite one key in an ordered pair list; an existing key
/// keeps its position, a new key is appended.
pub open spec fn upsert(
    acc: Seq<(Seq<char>, Seq<char>)>,
    k: Seq<char>,
    v: Seq<char>,
) -> Seq<(Seq<char>, Seq<char>)>
    decreases acc.len(),
{
    if acc.len() == 0 {
        seq![(k, v)]
    } else if acc[0].0 == k {
        seq![(k, v)] + acc.drop_first()
    } else {
        seq![acc[0]] + upsert(acc.drop_first(), k, v)
    }
}

/// Folding the lines' entries into a pair list, in order.
pub open spec fn env_fold(
    ls: Seq<Seq<char>>,
    acc: Seq<(Seq<char>, Seq<char>)>,
) -> Seq<(Seq<char>, Seq<char>)>
    decreases ls.len(),
{
    if ls.len() == 0 {
        acc
    } else {
        env_fold(
            ls.drop_first(),
            match line_entry(ls[0]) {
                Some(kv) => upsert(acc, kv.0, kv.1),
                None => acc,
            },
        )
    }
}

/// What `parse_env_file` returns for a whole text.
pub open spec fn parse_env_spec(content: Seq<char>) -> Seq<(Seq<char>, Seq<char>)> {
    env_fold(lines_of(content), Seq::empty())
}

/// When the key sits at position `i` and nowhere earlier, `upsert`
/// overwrites in place.
proof fn lemma_upsert_found(acc: Seq<(Seq<char>, Seq<char>)>, k: Seq<char>, v: Seq<char>, i: int)
    requires
        0 <= i < acc.len(),
        acc[i].0 == k,
        forall|j: int| 0 <= j < i ==> (#[trigger] acc[j]).0 != k,
    ensures
        upsert(acc, k, v) == acc.update(i, (k, v)),
    decreases i,
{
    if i == 0 {
        assert(upsert(acc, k, v) =~= acc.update(0, (k, v)));
    } else {
        assert(acc[0].0 != k);
        lemma_upsert_found(acc.drop_first(), k, v, i - 1);
        assert(forall|j: int| 0 <= j < i - 1 ==> (#[trigger] acc.drop_first()[j]).0 == acc[j + 1].0);
        assert(acc.drop_first()[i - 1] == acc[i]);
        assert(seq![acc[0]] + acc.drop_first().update(i - 1, (k, v)) =~= acc.update(i, (k, v)));
    }
}

/// When the key is absent, `upsert` appends.
proof fn lemma_upsert_absent(acc: Seq<(Seq<char>, Seq<char>)>, k: Seq<char>, v: Seq<char>)
    requires
        forall|j: int| 0 <= j < acc.len() ==> (#[trigger] acc[j]).0 != k,
    ensures
        upsert(acc, k, v) == acc.push((k, v)),
    decreases acc.len(),
{
    if acc.len() == 0 {
        assert(upsert(acc, k, v) =~= acc.push((k, v)));
    } else {
        assert(forall|j: int| 0 <= j < acc.len() - 1 ==> (#[trigger] acc.drop_first()[j]).0 == acc[j + 1].0);
        lemma_upsert_absent(acc.drop_first(), k, v);
        assert(seq![acc[0]] + acc.drop_first().push((k, v)) =~= acc.push((k, v)));
    }
}

/// Insert or overwrite one pair in the running result.
fn apply_entry(acc: &mut Vec<(String, String)>, key: String, value: String)
    ensures
        pairs_view(final (acc)@) == upsert(pairs_view(old(acc)@), key@, value@),
{
    let ghost prev = pairs_view(acc@);
    let n = acc.len();
    let mut i: usize = 0;
    while i < n
        invariant
            n == acc@.len(),
            i <= n,
            prev == pairs_view(acc@),
            prev == pairs_view(old(acc)@),
            forall|j: int| 0 <= j < i ==> (#[trigger] prev[j]).0 != key@,
        decreases n - i,
    {
        if acc[i].0 == key {
            proof {
                assert(prev[i as int].0 == key@);
            }
            acc.remove(i);
            acc.insert(i, (key, value));
            proof {
                lemma_upsert_found(prev, key@, value@, i as int);
                assert(pairs_view(acc@) =~= prev.update(i as int, (key@, value@)));
            }
            return ;
        }
        i = i + 1;
    }
    acc.push((key, value));
    proof {
        lemma_upsert_absent(prev, key@, value@);
        assert(pairs_view(acc@) =~= prev.push((key@, value@)));
    }
}

/// The pair one line range contributes, if any.
fn line_pair(content: &Vec<char>, ls: usize, le: usize) -> (r: Option<(String, String)>)
    requires
        ls <= le <= content@.len(),
    ensures
        match r {
            Some(kv) => line_entry(content@.subrange(ls as int, le as int)) == Some(
                (kv.0@, kv.1@),
            ),
            None => line_entry(content@.subrange(ls as int, le as int)) is None,
        },
{
    let ghost raw = content@.subrange(ls as int, le as int);
    let (a, b) = trim_range(content, ls, le);
    proof {
        assert(content@.subrange(a as int, b as int) == trim_spec(raw));
    }
    if a == b {
        return None;
    }
    if content[a] == '#' {
        proof {
            assert(trim_spec(raw)[0] == '#');
        }
        return None;
    }
    // find the first '=' in the trimmed line
    let ghost t = trim_spec(raw);
    let mut e: usize = a;
    while e < b && content[e] != '='
        invariant
            a <= e <= b <= content@.len(),
            forall|j: int| a <= j < e ==> content@[j] != '=',
        decreases b - e,
    {
        e = e + 1;
    }
    proof {
        assert(forall|j: int| 0 <= j < t.len() ==> t[j] == content@[a + j]);
        crate::lines::lemma_first_at_is(t, '=', e - a);
    }
    if e == b {
        return None;
    }
    // key: trimmed text before '='; value: trimmed text after it
    let (ka, kb) = trim_range(content, a, e);
    proof {
        assert(t.take(e - a) =~= content@.subrange(a as int, e as int));
    }
    if ka == kb {
        return None;
    }
    let (va, vb) = trim_range(content, e + 1, b);
    proof {
        assert(t.skip(e - a + 1) =~= content@.subrange(e + 1, b as int));
    }
    let ghost val0 = trim_spec(t.skip(e - a + 1));
    let quoted_val = vb - va >= 2 && ((content[va] == '"' && content[vb - 1] == '"') || (
    content[va] == '\'' && content[vb - 1] == '\''));
    proof {
        assert(content@.subrange(va as int, vb as int) == val0);
        if val0.len() >= 1 {
            assert(val0[0] == content@[va as int]);
            assert(val0.last() == content@[vb - 1]);
        }
    }
    let key = chars_to_string(&subrange_vec(content, ka, kb));
    let value = if quoted_val {
        proof {
            assert(content@.subrange(va + 1, vb - 1) =~= val0.subrange(1, val0.len() - 1));
        }
        chars_to_string(&subrange_vec(content, va + 1, vb - 1))
    } else {
        chars_to_string(&subrange_vec(content, va, vb))
    };
    Some((key, value))
}

/// Fold the lines from `pos` onward into the running result.
fn parse_env_from(content: &Vec<char>, pos: usize, acc: Vec<(String, String)>) -> (r: Vec<
    (String, String),
>)
    requires
        pos <= content@.len(),
    ensures
        pairs_view(r@) == env_fold(lines_of(content@.skip(pos as int)), pairs_view(acc@)),
    decreases content@.len() - pos,
{
    let n = content.len();
    if pos == n {
        proof {
            assert(content@.skip(pos as int).len() == 0);
        }
        return acc;
    }
    let e = crate::lines::find_newline(content, pos);
    let ghost rem = content@.skip(pos as int);
    let ghost line = content@.subrange(pos as int, e as int);
    proof {
        assert(rem.take(e - pos) =~= line);
        if e == n {
            assert(rem =~= line);
            assert(lines_of(rem) =~= seq![line]);
            assert(lines_of(rem).drop_first() =~= Seq::<Seq<char>>::empty());
        } else {
            assert(rem.skip(e - pos + 1) =~= content@.skip(e + 1));
            assert(lines_of(rem) =~= seq![line] + lines_of(content@.skip(e + 1)));
            assert(lines_of(rem).drop_first() =~= lines_of(content@.skip(e + 1)));
        }
        assert(lines_of(rem)[0] == line);
    }
    let mut acc2 = acc;
    match line_pair(content, pos, e) {
        Some(kv) => {
            apply_entry(&mut acc2, kv.0, kv.1);
        },
        None => {},
    }
    if e == n {
        proof {
            assert(env_fold(lines_of(rem), pairs_view(acc@)) == env_fold(
                Seq::<Seq<char>>::empty(),
                pairs_view(acc2@),
            ));
        }
        acc2
    } else {
        parse_env_from(content, e + 1, acc2)
    }
}

/// Parse env-format text into an ordered list of unique keys with their
/// values; a key that occurs on several lines keeps its first position and
/// its last value.
pub fn parse_env_file(content: &str) -> (r: Vec<(String, String)>)
    ensures
        pairs_view(r@) == parse_env_spec(content@),
{
    let cs = str_to_chars(content);
    proof {
        assert(cs@.skip(0) =~= content@);
    }
    let empty_acc: Vec<(String, String)> = Vec::new();
    proof {
        assert(pairs_view(empty_acc@) =~= Seq::<(Seq<char>, Seq<char>)>::empty());
    }
    parse_env_from(&cs, 0, empty_acc)
}

} // verus!
