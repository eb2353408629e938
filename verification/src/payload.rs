//! The plaintext payload codec: a project is serialized to compact JSON
//! with a fixed field order, string-valued RFC 3339 timestamps and the
//! escaping of `crate::json`; the parser accepts exactly what the
//! serializer emits and inverts it.

use crate::clock::{format_rfc3339, parse_rfc3339, rfc3339_of, TS_MAX};
use crate::json::{
    begins_at, lemma_begins_chars, lemma_begins_concat, lemma_begins_join, match_lit, parse_quoted,
    push_lit, push_quoted, quoted,
};
use crate::models::{pairs_view, Project, ProjectView};
use crate::text::{chars_to_string, str_to_chars};
use vstd::prelude::*;

verus! {

/// One serialized key-value pair.
pub open spec fn ser_entry(e: (Seq<char>, Seq<char>)) -> Seq<char> {
    quoted(e.0) + seq![':'] + quoted(e.1)
}

/// The serialized secrets object after its opening brace: the entries,
/// comma-separated, then the closing brace.
pub open spec fn ser_entries_tail(es: Seq<(Seq<char>, Seq<char>)>) -> Seq<char>
    decreases es.len(),
{
    if es.len() == 0 {
        seq!['}']
    } else if es.len() == 1 {
        ser_entry(es[0]) + seq!['}']
    } else {
        ser_entry(es[0]) + seq![','] + ser_entries_tail(es.skip(1))
    }
}

/// The whole serialized secrets object.
pub open spec fn ser_secrets(es: Seq<(Seq<char>, Seq<char>)>) -> Seq<char> {
    seq!['{'] + ser_entries_tail(es)
}

/// The serialized payload of a whole project.
pub open spec fn ser_project(p: ProjectView) -> Seq<char> {
    "{\"name\":"@ + quoted(p.name) + ",\"secrets\":"@ + ser_secrets(p.secrets)
        + ",\"created_at\":"@ + quoted(rfc3339_of(p.created_at as i64)) + ",\"updated_at\":"@
        + quoted(rfc3339_of(p.updated_at as i64)) + "}"@
}

/// Peeling one entry off the remaining secrets object.
proof fn lemma_tail_split(es: Seq<(Seq<char>, Seq<char>)>, k: int)
    requires
        0 <= k < es.len(),
    ensures
        ser_entries_tail(es.skip(k)) == ser_entry(es[k]) + (if k + 1 == es.len() {
            seq!['}']
        } else {
            seq![','] + ser_entries_tail(es.skip(k + 1))
        }),
{
    assert(es.skip(k)[0] == es[k]);
    assert(es.skip(k).skip(1) =~= es.skip(k + 1));
    if k + 1 == es.len() {
        assert(ser_entries_tail(es.skip(k)) =~= ser_entry(es[k]) + seq!['}']);
    } else {
        assert(ser_entries_tail(es.skip(k)) =~= ser_entry(es[k]) + (seq![','] + ser_entries_tail(
            es.skip(k + 1),
        )));
    }
}

/// Serialize the secrets object, appending to `out`.
fn push_secrets(out: &mut Vec<char>, secrets: &Vec<(String, String)>)
    ensures
        final (out)@ == old(out)@ + ser_secrets(pairs_view(secrets@)),
{
    let ghost base = out@;
    let ghost es = pairs_view(secrets@);
    out.push('{');
    let n = secrets.len();
    if n == 0 {
        out.push('}');
        proof {
            assert(es.len() == 0);
            assert(ser_entries_tail(es) =~= seq!['}']);
            assert(out@ =~= base + ser_secrets(es));
        }
        return ;
    }
    proof {
        assert(es.skip(0) =~= es);
        assert(out@ + ser_entries_tail(es) =~= base + ser_secrets(es));
    }
    let mut k: usize = 0;
    while k < n
        invariant
            n == secrets@.len(),
            n > 0,
            k <= n,
            es == pairs_view(secrets@),
            out@ + ser_entries_tail(es.skip(k as int)) == base + ser_secrets(es),
        decreases n - k,
    {
        let key_chars = str_to_chars(secrets[k].0.as_str());
        let val_chars = str_to_chars(secrets[k].1.as_str());
        let ghost before = out@;
        push_quoted(out, &key_chars);
        out.push(':');
        push_quoted(out, &val_chars);
        proof {
            assert(es[k as int] == (secrets@[k as int].0@, secrets@[k as int].1@));
            assert(out@ =~= before + ser_entry(es[k as int]));
        }
        if k + 1 < n {
            out.push(',');
        }
        proof {
            lemma_tail_split(es, k as int);
            if k + 1 == n {
                assert(out@ + seq!['}'] =~= base + ser_secrets(es));
            } else {
                assert(out@ + ser_entries_tail(es.skip(k + 1)) =~= base + ser_secrets(es));
            }
        }
        k = k + 1;
    }
    out.push('}');
    proof {
        assert(es.skip(n as int) =~= Seq::<(Seq<char>, Seq<char>)>::empty());
        assert(ser_entries_tail(es.skip(n as int)) =~= seq!['}']);
        assert(out@ =~= base + ser_secrets(es));
    }
}

/// Serialize a project to its payload text.
pub fn serialize_project(p: &Project) -> (r: String)
    requires
        p@.wf(),
    ensures
        r@ == ser_project(p@),
{
    let mut out: Vec<char> = Vec::new();
    push_lit(&mut out, "{\"name\":");
    let name_chars = str_to_chars(p.name.as_str());
    push_quoted(&mut out, &name_chars);
    push_lit(&mut out, ",\"secrets\":");
    push_secrets(&mut out, &p.secrets);
    push_lit(&mut out, ",\"created_at\":");
    let ts1 = format_rfc3339(p.created_at);
    let ts1_chars = str_to_chars(ts1.as_str());
    push_quoted(&mut out, &ts1_chars);
    push_lit(&mut out, ",\"updated_at\":");
    let ts2 = format_rfc3339(p.updated_at);
    let ts2_chars = str_to_chars(ts2.as_str());
    push_quoted(&mut out, &ts2_chars);
    push_lit(&mut out, "}");
    proof {
        assert(out@ =~= ser_project(p@));
    }
    chars_to_string(&out)
}

/// Where each part of a serialized project stands in the text.
proof fn lemma_project_parts(s: Seq<char>, q: ProjectView)
    requires
        s == ser_project(q),
    ensures
        begins_at(s, 0, "{\"name\":"@),
        begins_at(s, "{\"name\":"@.len() as int, quoted(q.name)),
        begins_at(s, off2(q), ",\"secrets\":"@),
        begins_at(s, off2(q) + ",\"secrets\":"@.len(), ser_secrets(q.secrets)),
        begins_at(s, off4(q), ",\"created_at\":"@),
        begins_at(s, off4(q) + ",\"created_at\":"@.len(), quoted(rfc3339_of(q.created_at as i64))),
        begins_at(s, off6(q), ",\"updated_at\":"@),
        begins_at(s, off6(q) + ",\"updated_at\":"@.len(), quoted(rfc3339_of(q.updated_at as i64))),
        begins_at(s, off8(q), "}"@),
        s.len() == off8(q) + "}"@.len(),
{
    let a1 = "{\"name\":"@ + quoted(q.name);
    let a2 = a1 + ",\"secrets\":"@;
    let a3 = a2 + ser_secrets(q.secrets);
    let a4 = a3 + ",\"created_at\":"@;
    let a5 = a4 + quoted(rfc3339_of(q.created_at as i64));
    let a6 = a5 + ",\"updated_at\":"@;
    let a7 = a6 + quoted(rfc3339_of(q.updated_at as i64));
    assert(s.subrange(0, s.len() as int) =~= s);
    assert(begins_at(s, 0, a7 + "}"@));
    lemma_begins_concat(s, 0, a7, "}"@);
    lemma_begins_concat(s, 0, a6, quoted(rfc3339_of(q.updated_at as i64)));
    lemma_begins_concat(s, 0, a5, ",\"updated_at\":"@);
    lemma_begins_concat(s, 0, a4, quoted(rfc3339_of(q.created_at as i64)));
    lemma_begins_concat(s, 0, a3, ",\"created_at\":"@);
    lemma_begins_concat(s, 0, a2, ser_secrets(q.secrets));
    lemma_begins_concat(s, 0, a1, ",\"secrets\":"@);
    lemma_begins_concat(s, 0, "{\"name\":"@, quoted(q.name));
}

/// Offset of the `,"secrets":` key in a serialized project.
pub open spec fn off2(q: ProjectView) -> int {
    "{\"name\":"@.len() + quoted(q.name).len() as int
}

/// Offset of the `,"created_at":` key in a serialized project.
pub open spec fn off4(q: ProjectView) -> int {
    off2(q) + ",\"secrets\":"@.len() + ser_secrets(q.secrets).len() as int
}

/// Offset of the `,"updated_at":` key in a serialized project.
pub open spec fn off6(q: ProjectView) -> int {
    off4(q) + ",\"created_at\":"@.len() + quoted(rfc3339_of(q.created_at as i64)).len() as int
}

/// Offset of the closing brace in a serialized project.
pub open spec fn off8(q: ProjectView) -> int {
    off6(q) + ",\"updated_at\":"@.len() + quoted(rfc3339_of(q.updated_at as i64)).len() as int
}

/// Where each part of the first entry of a remaining secrets object stands.
proof fn lemma_tail_parts(s: Seq<char>, pos: int, es: Seq<(Seq<char>, Seq<char>)>)
    requires
        begins_at(s, pos, ser_entries_tail(es)),
        es.len() > 0,
    ensures
        begins_at(s, pos, quoted(es[0].0)),
        begins_at(s, pos + quoted(es[0].0).len(), seq![':']),
        begins_at(s, pos + quoted(es[0].0).len() + 1, quoted(es[0].1)),
        es.len() == 1 ==> begins_at(
            s,
            pos + quoted(es[0].0).len() + 1 + quoted(es[0].1).len(),
            seq!['}'],
        ),
        es.len() > 1 ==> begins_at(
            s,
            pos + quoted(es[0].0).len() + 1 + quoted(es[0].1).len(),
            seq![','],
        ) && begins_at(
            s,
            pos + quoted(es[0].0).len() + 1 + quoted(es[0].1).len() + 1,
            ser_entries_tail(es.skip(1)),
        ),
{
    let qk = quoted(es[0].0);
    let qv = quoted(es[0].1);
    if es.len() == 1 {
        assert(ser_entries_tail(es) =~= (qk + seq![':'] + qv) + seq!['}']);
        lemma_begins_concat(s, pos, qk + seq![':'] + qv, seq!['}']);
        lemma_begins_concat(s, pos, qk + seq![':'], qv);
        lemma_begins_concat(s, pos, qk, seq![':']);
    } else {
        assert(ser_entries_tail(es) =~= ((qk + seq![':'] + qv) + seq![',']) + ser_entries_tail(
            es.skip(1),
        ));
        lemma_begins_concat(s, pos, (qk + seq![':'] + qv) + seq![','], ser_entries_tail(es.skip(1)));
        lemma_begins_concat(s, pos, qk + seq![':'] + qv, seq![',']);
        lemma_begins_concat(s, pos, qk + seq![':'], qv);
        lemma_begins_concat(s, pos, qk, seq![':']);
    }
}

/// Parse the secrets object's tail: entries and the closing brace. Accepts
/// exactly the text `push_secrets` writes after its opening brace.
fn parse_entries(s: &Vec<char>, pos: usize) -> (r: Option<(Vec<(String, String)>, usize)>)
    requires
        pos <= s@.len(),
    ensures
        r is Some ==> pos < (r->0).1 <= s@.len() && s@.subrange(pos as int, (r->0).1 as int)
            == ser_entries_tail(pairs_view((r->0).0@)),
        forall|es: Seq<(Seq<char>, Seq<char>)>|
            begins_at(s@, pos as int, #[trigger] ser_entries_tail(es)) ==> r is Some && pairs_view(
                (r->0).0@,
            ) == es && (r->0).1 == pos + ser_entries_tail(es).len(),
    decreases s@.len() - pos,
{
    proof {
        assert forall|es: Seq<(Seq<char>, Seq<char>)>|
            begins_at(s@, pos as int, #[trigger] ser_entries_tail(es)) && es.len() > 0 implies {
            &&& begins_at(s@, pos as int, quoted(es[0].0))
            &&& begins_at(s@, pos + quoted(es[0].0).len(), seq![':'])
            &&& begins_at(s@, pos + quoted(es[0].0).len() + 1, quoted(es[0].1))
        } by {
            lemma_tail_parts(s@, pos as int, es);
        }
    }
    if pos < s.len() && s[pos] == '}' {
        let out: Vec<(String, String)> = Vec::new();
        proof {
            assert(pairs_view(out@) =~= Seq::<(Seq<char>, Seq<char>)>::empty());
            assert(ser_entries_tail(pairs_view(out@)) =~= seq!['}']);
            assert(s@.subrange(pos as int, pos + 1) =~= seq!['}']);
            assert forall|es: Seq<(Seq<char>, Seq<char>)>|
                begins_at(s@, pos as int, #[trigger] ser_entries_tail(es)) implies es.len()
                == 0 by {
                if es.len() > 0 {
                    lemma_begins_chars(s@, pos as int, quoted(es[0].0));
                    assert(s@[pos as int] == quoted(es[0].0)[0]);
                }
            }
        }
        return Some((out, pos + 1));
    }
    let key_parse = parse_quoted(s, pos);
    if key_parse.is_none() {
        proof {
            assert forall|es: Seq<(Seq<char>, Seq<char>)>|
                !begins_at(s@, pos as int, #[trigger] ser_entries_tail(es)) by {
                if begins_at(s@, pos as int, ser_entries_tail(es)) {
                    if es.len() == 0 {
                        assert(ser_entries_tail(es) =~= seq!['}']);
                        lemma_begins_chars(s@, pos as int, ser_entries_tail(es));
                        assert(ser_entries_tail(es)[0] == '}');
                        assert(s@[pos as int] == '}');
                    }
                }
            }
        }
        return None;
    }
    let (key_chars, p1) = key_parse.unwrap();
    if !(p1 < s.len() && s[p1] == ':') {
        proof {
            assert forall|es: Seq<(Seq<char>, Seq<char>)>|
                !begins_at(s@, pos as int, #[trigger] ser_entries_tail(es)) by {
                if begins_at(s@, pos as int, ser_entries_tail(es)) {
                    if es.len() == 0 {
                        assert(ser_entries_tail(es) =~= seq!['}']);
                        lemma_begins_chars(s@, pos as int, ser_entries_tail(es));
                        assert(ser_entries_tail(es)[0] == '}');
                        assert(s@[pos as int] == '}');
                        assert(s@.subrange(pos as int, p1 as int) == quoted(key_chars@));
                        lemma_begins_chars(s@, pos as int, quoted(key_chars@));
                        assert(s@[pos as int] == '"');
                    } else {
                        assert(begins_at(s@, pos as int, quoted(es[0].0)));
                        assert(key_chars@ == es[0].0);
                        assert(p1 == pos + quoted(es[0].0).len());
                        assert(begins_at(s@, pos + quoted(es[0].0).len(), seq![':']));
                        lemma_begins_chars(s@, p1 as int, seq![':']);
                        assert(seq![':'][0] == ':');
                        assert(s@[p1 as int] == ':');
                    }
                }
            }
        }
        return None;
    }
    let p2 = p1 + 1;
    let val_parse = parse_quoted(s, p2);
    if val_parse.is_none() {
        proof {
            assert forall|es: Seq<(Seq<char>, Seq<char>)>|
                !begins_at(s@, pos as int, #[trigger] ser_entries_tail(es)) by {
                if begins_at(s@, pos as int, ser_entries_tail(es)) {
                    if es.len() == 0 {
                        assert(ser_entries_tail(es) =~= seq!['}']);
                        lemma_begins_chars(s@, pos as int, ser_entries_tail(es));
                        assert(ser_entries_tail(es)[0] == '}');
                        assert(s@[pos as int] == '}');
                        assert(s@.subrange(pos as int, p1 as int) == quoted(key_chars@));
                        lemma_begins_chars(s@, pos as int, quoted(key_chars@));
                        assert(s@[pos as int] == '"');
                    } else {
                        assert(p2 == pos + quoted(es[0].0).len() + 1);
                    }
                }
            }
        }
        return None;
    }
    let (val_chars, p3) = val_parse.unwrap();
    proof {
        // below, any matching es has this entry as its head
        assert forall|es: Seq<(Seq<char>, Seq<char>)>|
            begins_at(s@, pos as int, #[trigger] ser_entries_tail(es)) implies es.len() > 0
            && es[0] == (key_chars@, val_chars@) && p3 == pos + quoted(es[0].0).len() + 1 + quoted(
            es[0].1,
        ).len() by {
            if es.len() == 0 {
                assert(ser_entries_tail(es) =~= seq!['}']);
                lemma_begins_chars(s@, pos as int, ser_entries_tail(es));
                assert(ser_entries_tail(es)[0] == '}');
                assert(s@[pos as int] == '}');
                assert(s@.subrange(pos as int, p1 as int) == quoted(key_chars@));
                lemma_begins_chars(s@, pos as int, quoted(key_chars@));
                assert(s@[pos as int] == '"');
            } else {
                assert(key_chars@ == es[0].0);
                assert(p2 == pos + quoted(es[0].0).len() + 1);
                assert(val_chars@ == es[0].1);
            }
        }
    }
    let sep_comma = p3 < s.len() && s[p3] == ',';
    let sep_brace = p3 < s.len() && s[p3] == '}';
    proof {
        assert forall|es: Seq<(Seq<char>, Seq<char>)>|
            begins_at(s@, pos as int, #[trigger] ser_entries_tail(es)) implies (es.len() == 1
            ==> sep_brace) && (es.len() > 1 ==> sep_comma && begins_at(
            s@,
            p3 + 1,
            ser_entries_tail(es.skip(1)),
        )) by {
            lemma_tail_parts(s@, pos as int, es);
            assert(es.len() > 0 && es[0] == (key_chars@, val_chars@));
            assert(p3 == pos + quoted(es[0].0).len() + 1 + quoted(es[0].1).len());
            if es.len() == 1 {
                assert(begins_at(s@, p3 as int, seq!['}']));
                lemma_begins_chars(s@, p3 as int, seq!['}']);
                assert(seq!['}'][0] == '}');
                assert(s@[p3 as int] == '}');
                assert(p3 < s@.len());
            } else {
                assert(begins_at(s@, p3 as int, seq![',']));
                lemma_begins_chars(s@, p3 as int, seq![',']);
                assert(seq![','][0] == ',');
                assert(s@[p3 as int] == ',');
                assert(p3 < s@.len());
                assert(begins_at(s@, p3 + 1, ser_entries_tail(es.skip(1))));
            }
        }
    }
    if sep_brace {
        let key = chars_to_string(&key_chars);
        let val = chars_to_string(&val_chars);
        let mut out: Vec<(String, String)> = Vec::new();
        out.push((key, val));
        proof {
            assert(pairs_view(out@) =~= seq![(key_chars@, val_chars@)]);
            let ev = pairs_view(out@);
            assert(ser_entries_tail(ev) =~= (quoted(key_chars@) + seq![':'] + quoted(val_chars@))
                + seq!['}']);
            assert(s@.subrange(p1 as int, p2 as int) =~= seq![':']);
            assert(s@.subrange(p3 as int, p3 + 1) =~= seq!['}']);
            lemma_begins_join(s@, pos as int, quoted(key_chars@), seq![':']);
            lemma_begins_join(s@, pos as int, quoted(key_chars@) + seq![':'], quoted(val_chars@));
            lemma_begins_join(
                s@,
                pos as int,
                quoted(key_chars@) + seq![':'] + quoted(val_chars@),
                seq!['}'],
            );
            assert(s@.subrange(pos as int, p3 + 1) == ser_entries_tail(ev));
            assert forall|es: Seq<(Seq<char>, Seq<char>)>|
                begins_at(s@, pos as int, #[trigger] ser_entries_tail(es)) implies ev == es && p3
                + 1 == pos + ser_entries_tail(es).len() by {
                if es.len() > 1 {
                    assert(sep_comma);
                    assert(s@[p3 as int] == ',');
                    assert(false);
                }
                assert(es =~= ev);
                lemma_tail_parts(s@, pos as int, es);
            }
        }
        return Some((out, p3 + 1));
    }
    if !sep_comma {
        return None;
    }
    let rest_parse = parse_entries(s, p3 + 1);
    if rest_parse.is_none() {
        proof {
            assert forall|es: Seq<(Seq<char>, Seq<char>)>|
                !begins_at(s@, pos as int, #[trigger] ser_entries_tail(es)) by {
                if begins_at(s@, pos as int, ser_entries_tail(es)) {
                    if es.len() == 1 {
                        assert(sep_brace);
                        assert(false);
                    }
                }
            }
        }
        return None;
    }
    let (rest, p4) = rest_parse.unwrap();
    if rest.len() == 0 {
        proof {
            assert(pairs_view(rest@) =~= Seq::<(Seq<char>, Seq<char>)>::empty());
            assert forall|es: Seq<(Seq<char>, Seq<char>)>|
                !begins_at(s@, pos as int, #[trigger] ser_entries_tail(es)) by {
                if begins_at(s@, pos as int, ser_entries_tail(es)) {
                    if es.len() == 1 {
                        assert(sep_brace);
                        assert(false);
                    } else {
                        assert(pairs_view(rest@) == es.skip(1));
                        assert(es.skip(1).len() > 0);
                    }
                }
            }
        }
        return None;
    }
    let key = chars_to_string(&key_chars);
    let val = chars_to_string(&val_chars);
    let mut out = rest;
    out.insert(0, (key, val));
    proof {
        let ghost rv = pairs_view(out@);
        assert(rv =~= seq![(key_chars@, val_chars@)] + pairs_view(rest@));
        assert(rv.len() > 1);
        assert(rv.skip(1) =~= pairs_view(rest@));
        assert(ser_entries_tail(rv) =~= (quoted(key_chars@) + seq![':'] + quoted(val_chars@)) + (
        seq![','] + ser_entries_tail(pairs_view(rest@))));
        assert(s@.subrange(p1 as int, p2 as int) =~= seq![':']);
        assert(s@.subrange(p3 as int, p3 + 1) =~= seq![',']);
        lemma_begins_join(s@, pos as int, quoted(key_chars@), seq![':']);
        lemma_begins_join(s@, pos as int, quoted(key_chars@) + seq![':'], quoted(val_chars@));
        lemma_begins_join(
            s@,
            pos as int,
            quoted(key_chars@) + seq![':'] + quoted(val_chars@),
            seq![','],
        );
        lemma_begins_join(
            s@,
            pos as int,
            quoted(key_chars@) + seq![':'] + quoted(val_chars@) + seq![','],
            ser_entries_tail(pairs_view(rest@)),
        );
        assert((quoted(key_chars@) + seq![':'] + quoted(val_chars@) + seq![','] + ser_entries_tail(
            pairs_view(rest@),
        )) =~= ser_entries_tail(rv));
        assert(s@.subrange(pos as int, p4 as int) == ser_entries_tail(rv));
        assert forall|es: Seq<(Seq<char>, Seq<char>)>|
            begins_at(s@, pos as int, #[trigger] ser_entries_tail(es)) implies rv == es && p4 == pos
            + ser_entries_tail(es).len() by {
            if es.len() == 1 {
                assert(sep_brace);
                assert(false);
            }
            assert(pairs_view(rest@) == es.skip(1));
            assert(rv =~= es);
            lemma_tail_parts(s@, pos as int, es);
            assert(ser_entries_tail(es) == ser_entry(es[0]) + seq![','] + ser_entries_tail(
                es.skip(1),
            ));
        }
    }
    Some((out, p4))
}

/// Parse a serialized payload back into a project. Succeeds on exactly the
/// texts `serialize_project` produces for well-formed projects, and inverts
/// it on them.
#[verifier::rlimit(100)]
#[verifier::spinoff_prover]
pub fn parse_project(payload: &str) -> (r: Option<Project>)
    ensures
        r is Some ==> r->0@.wf() && payload@ == ser_project(r->0@),
        forall|q: ProjectView|
            q.wf() && payload@ == #[trigger] ser_project(q) ==> r is Some && r->0@ == q,
{
    let s = str_to_chars(payload);
    let n = s.len();
    proof {
        assert forall|q: ProjectView| payload@ == #[trigger] ser_project(q) implies {
            &&& begins_at(s@, 0, "{\"name\":"@)
            &&& begins_at(s@, "{\"name\":"@.len() as int, quoted(q.name))
            &&& begins_at(s@, off2(q), ",\"secrets\":"@)
            &&& begins_at(s@, off2(q) + ",\"secrets\":"@.len(), ser_secrets(q.secrets))
            &&& begins_at(s@, off4(q), ",\"created_at\":"@)
            &&& begins_at(
                s@,
                off4(q) + ",\"created_at\":"@.len(),
                quoted(rfc3339_of(q.created_at as i64)),
            )
            &&& begins_at(s@, off6(q), ",\"updated_at\":"@)
            &&& begins_at(
                s@,
                off6(q) + ",\"updated_at\":"@.len(),
                quoted(rfc3339_of(q.updated_at as i64)),
            )
            &&& begins_at(s@, off8(q), "}"@)
            &&& s@.len() == off8(q) + "}"@.len()
        } by {
            lemma_project_parts(s@, q);
        }
    }
    let lit1 = str_to_chars("{\"name\":");
    if !match_lit(&s, 0, &lit1) {
        return None;
    }
    let j1 = lit1.len();
    let name_parse = parse_quoted(&s, j1);
    if name_parse.is_none() {
        return None;
    }
    let (name_chars, j2) = name_parse.unwrap();
    let lit2 = str_to_chars(",\"secrets\":");
    if !match_lit(&s, j2, &lit2) {
        return None;
    }
    let j3 = j2 + lit2.len();
    if !(j3 < s.len() && s[j3] == '{') {
        proof {
            assert forall|q: ProjectView| payload@ != #[trigger] ser_project(q) by {
                if payload@ == ser_project(q) {
                    lemma_begins_chars(s@, j3 as int, ser_secrets(q.secrets));
                    assert(s@[j3 as int] == '{');
                }
            }
        }
        return None;
    }
    let entries_parse = parse_entries(&s, j3 + 1);
    if entries_parse.is_none() {
        proof {
            assert forall|q: ProjectView| payload@ != #[trigger] ser_project(q) by {
                if payload@ == ser_project(q) {
                    lemma_begins_concat(
                        s@,
                        off2(q) + ",\"secrets\":"@.len(),
                        seq!['{'],
                        ser_entries_tail(q.secrets),
                    );
                }
            }
        }
        return None;
    }
    let (secret_pairs, j4) = entries_parse.unwrap();
    proof {
        assert forall|q: ProjectView| payload@ == #[trigger] ser_project(q) implies pairs_view(
            secret_pairs@,
        ) == q.secrets && j4 == off4(q) by {
            lemma_begins_concat(
                s@,
                off2(q) + ",\"secrets\":"@.len(),
                seq!['{'],
                ser_entries_tail(q.secrets),
            );
        }
    }
    let lit3 = str_to_chars(",\"created_at\":");
    if !match_lit(&s, j4, &lit3) {
        return None;
    }
    let j5 = j4 + lit3.len();
    let ts1_parse = parse_quoted(&s, j5);
    if ts1_parse.is_none() {
        return None;
    }
    let (ts1_chars, j6) = ts1_parse.unwrap();
    let lit4 = str_to_chars(",\"updated_at\":");
    if !match_lit(&s, j6, &lit4) {
        return None;
    }
    let j7 = j6 + lit4.len();
    let ts2_parse = parse_quoted(&s, j7);
    if ts2_parse.is_none() {
        return None;
    }
    let (ts2_chars, j8) = ts2_parse.unwrap();
    let lit5 = str_to_chars("}");
    if !match_lit(&s, j8, &lit5) {
        return None;
    }
    let j9 = j8 + lit5.len();
    if j9 != n {
        return None;
    }
    // semantic checks: timestamps must be canonical renderings in range,
    // ordered, and keys must be unique
    let ts1s = chars_to_string(&ts1_chars);
    let ts2s = chars_to_string(&ts2_chars);
    let t1_parse = parse_rfc3339(ts1s.as_str());
    if t1_parse.is_none() {
        return None;
    }
    let t1 = t1_parse.unwrap();
    if t1 < 0 || t1 > TS_MAX {
        return None;
    }
    let ts1_canon = format_rfc3339(t1);
    if !(ts1_canon == ts1s) {
        return None;
    }
    let t2_parse = parse_rfc3339(ts2s.as_str());
    if t2_parse.is_none() {
        return None;
    }
    let t2 = t2_parse.unwrap();
    if t2 < 0 || t2 > TS_MAX {
        return None;
    }
    let ts2_canon = format_rfc3339(t2);
    if !(ts2_canon == ts2s) {
        return None;
    }
    if t1 > t2 {
        return None;
    }
    if has_duplicate_key(&secret_pairs) {
        proof {
            assert forall|q: ProjectView|
                q.wf() && payload@ == #[trigger] ser_project(q) implies false by {
                assert(pairs_view(secret_pairs@) == q.secrets);
            }
        }
        return None;
    }
    let name = chars_to_string(&name_chars);
    let project = Project { name, secrets: secret_pairs, created_at: t1, updated_at: t2 };
    proof {
        assert(project@.secrets == pairs_view(project.secrets@));
        assert(project@.wf());
        // the consumed pieces join back into one serialized project
        let pn = quoted(name_chars@);
        let pt1 = quoted(ts1_chars@);
        let pt2 = quoted(ts2_chars@);
        let b1 = "{\"name\":"@;
        let b2 = ",\"secrets\":"@;
        let b3 = ",\"created_at\":"@;
        let b4 = ",\"updated_at\":"@;
        let b5 = "}"@;
        let sec = seq!['{'] + ser_entries_tail(pairs_view(secret_pairs@));
        assert(s@.subrange(j3 as int, j3 + 1) =~= seq!['{']);
        lemma_begins_join(s@, j3 as int, seq!['{'], ser_entries_tail(pairs_view(secret_pairs@)));
        lemma_begins_join(s@, 0, b1, pn);
        lemma_begins_join(s@, 0, b1 + pn, b2);
        lemma_begins_join(s@, 0, b1 + pn + b2, sec);
        lemma_begins_join(s@, 0, b1 + pn + b2 + sec, b3);
        lemma_begins_join(s@, 0, b1 + pn + b2 + sec + b3, pt1);
        lemma_begins_join(s@, 0, b1 + pn + b2 + sec + b3 + pt1, b4);
        lemma_begins_join(s@, 0, b1 + pn + b2 + sec + b3 + pt1 + b4, pt2);
        lemma_begins_join(s@, 0, b1 + pn + b2 + sec + b3 + pt1 + b4 + pt2, b5);
        let whole = b1 + pn + b2 + sec + b3 + pt1 + b4 + pt2 + b5;
        assert(whole.len() == j9);
        assert(s@.subrange(0, j9 as int) =~= s@);
        assert(s@ == whole);
        assert(ts1_canon@ == rfc3339_of(t1) && ts1_canon@ == ts1_chars@);
        assert(ts2_canon@ == rfc3339_of(t2) && ts2_canon@ == ts2_chars@);
        assert((project@.created_at as i64) == t1);
        assert((project@.updated_at as i64) == t2);
        assert(ser_project(project@) == whole);
        assert(payload@ == ser_project(project@));
        assert forall|q: ProjectView|
            q.wf() && payload@ == #[trigger] ser_project(q) implies project@ == q by {
            assert(name_chars@ == q.name);
            assert(pairs_view(secret_pairs@) == q.secrets);
            assert(ts1_chars@ == rfc3339_of(q.created_at as i64));
            assert(t1 == q.created_at as i64);
            assert(t2 == q.updated_at as i64);
            assert(project@.created_at == q.created_at);
            assert(project@.updated_at == q.updated_at);
        }
    }
    Some(project)
}

/// Whether any two entries share a key.
fn has_duplicate_key(v: &Vec<(String, String)>) -> (r: bool)
    ensures
        r == exists|a: int, b: int|
            0 <= a < b < v@.len() && (#[trigger] pairs_view(v@)[a]).0 == (#[trigger] pairs_view(
                v@,
            )[b]).0,
{
    let n = v.len();
    let mut a: usize = 0;
    while a < n
        invariant
            n == v@.len(),
            a <= n,
            forall|x: int, y: int|
                0 <= x < y < n && x < a ==> (#[trigger] pairs_view(v@)[x]).0 != (
                #[trigger] pairs_view(v@)[y]).0,
        decreases n - a,
    {
        let mut b: usize = a + 1;
        while b < n
            invariant
                n == v@.len(),
                a < b || (a + 1 == b),
                a < n,
                a + 1 <= b <= n,
                forall|x: int, y: int|
                    0 <= x < y < n && x < a ==> (#[trigger] pairs_view(v@)[x]).0 != (
                    #[trigger] pairs_view(v@)[y]).0,
                forall|y: int|
                    a < y < b ==> (#[trigger] pairs_view(v@)[y]).0 != pairs_view(v@)[a as int].0,
            decreases n - b,
        {
            if v[a].0 == v[b].0 {
                proof {
                    assert((pairs_view(v@)[a as int]).0 == (pairs_view(v@)[b as int]).0);
                }
                return true;
            }
            b = b + 1;
        }
        a = a + 1;
    }
    false
}

} // verus!
