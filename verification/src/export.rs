//! Rendering a project's secrets in the three export formats: shell
//! `export` lines, `.env` lines, and a pretty JSON object.

use crate::json::{push_lit, push_quoted, quoted};
use crate::models::{ExportFormat, Project};
use crate::text::{chars_to_string, str_to_chars};
use vstd::prelude::*;

verus! {

/// The shell rendering: one `export KEY='VALUE'` line per secret, in
/// storage order, values unquoted as the vault received them.
pub open spec fn export_shell(es: Seq<(Seq<char>, Seq<char>)>) -> Seq<char>
    decreases es.len(),
{
    if es.len() == 0 {
        Seq::empty()
    } else {
        "export "@ + es[0].0 + "='"@ + es[0].1 + "'\n"@ + export_shell(es.drop_first())
    }
}

/// The `.env` rendering: one `KEY=VALUE` line per secret, in storage order.
pub open spec fn export_env(es: Seq<(Seq<char>, Seq<char>)>) -> Seq<char>
    decreases es.len(),
{
    if es.len() == 0 {
        Seq::empty()
    } else {
        es[0].0 + "="@ + es[0].1 + "\n"@ + export_env(es.drop_first())
    }
}

/// The tail of the pretty JSON rendering: one indented member per secret,
/// then the closing brace.
pub open spec fn export_json_tail(es: Seq<(Seq<char>, Seq<char>)>) -> Seq<char>
    decreases es.len(),
{
    if es.len() == 0 {
        "\n}"@
    } else if es.len() == 1 {
        "  "@ + quoted(es[0].0) + ": "@ + quoted(es[0].1) + "\n}"@
    } else {
        "  "@ + quoted(es[0].0) + ": "@ + quoted(es[0].1) + ",\n"@ + export_json_tail(es.skip(1))
    }
}

/// The pretty JSON rendering of the secrets object.
pub open spec fn export_json(es: Seq<(Seq<char>, Seq<char>)>) -> Seq<char> {
    if es.len() == 0 {
        "{}"@
    } else {
        "{\n"@ + export_json_tail(es)
    }
}

/// What `format_export` renders for each format.
pub open spec fn export_spec(es: Seq<(Seq<char>, Seq<char>)>, format: ExportFormat) -> Seq<char> {
    match format {
        ExportFormat::Shell => export_shell(es),
        ExportFormat::EnvFile => export_env(es),
        ExportFormat::Json => export_json(es),
    }
}

/// Peeling one secret off the shell rendering.
proof fn lemma_shell_split(es: Seq<(Seq<char>, Seq<char>)>, k: int)
    requires
        0 <= k < es.len(),
    ensures
        export_shell(es.skip(k)) == "export "@ + es[k].0 + "='"@ + es[k].1 + "'\n"@ + export_shell(
            es.skip(k + 1),
        ),
{
    assert(es.skip(k)[0] == es[k]);
    assert(es.skip(k).drop_first() =~= es.skip(k + 1));
}

/// Peeling one secret off the `.env` rendering.
proof fn lemma_env_split(es: Seq<(Seq<char>, Seq<char>)>, k: int)
    requires
        0 <= k < es.len(),
    ensures
        export_env(es.skip(k)) == es[k].0 + "="@ + es[k].1 + "\n"@ + export_env(es.skip(k + 1)),
{
    assert(es.skip(k)[0] == es[k]);
    assert(es.skip(k).drop_first() =~= es.skip(k + 1));
}

/// Peeling one secret off the JSON rendering's tail.
proof fn lemma_json_split(es: Seq<(Seq<char>, Seq<char>)>, k: int)
    requires
        0 <= k < es.len(),
    ensures
        export_json_tail(es.skip(k)) == "  "@ + quoted(es[k].0) + ": "@ + quoted(es[k].1) + (if k
            + 1 == es.len() {
            "\n}"@
        } else {
            ",\n"@ + export_json_tail(es.skip(k + 1))
        }),
{
    assert(es.skip(k)[0] == es[k]);
    assert(es.skip(k).skip(1) =~= es.skip(k + 1));
    if k + 1 == es.len() {
        assert(export_json_tail(es.skip(k)) =~= "  "@ + quoted(es[k].0) + ": "@ + quoted(es[k].1)
            + "\n}"@);
    } else {
        assert(export_json_tail(es.skip(k)) =~= "  "@ + quoted(es[k].0) + ": "@ + quoted(es[k].1)
            + (",\n"@ + export_json_tail(es.skip(k + 1))));
    }
}

/// Render a project's secrets in the requested format.
pub fn format_export(project: &Project, format: &ExportFormat) -> (r: String)
    ensures
        r@ == export_spec(project@.secrets, *format),
{
    let ghost es = project@.secrets;
    let mut out: Vec<char> = Vec::new();
    let n = project.secrets.len();
    match format {
        ExportFormat::Shell => {
            proof {
                assert(es.skip(0) =~= es);
            }
            let mut k: usize = 0;
            while k < n
                invariant
                    n == project.secrets@.len(),
                    k <= n,
                    es == project@.secrets,
                    out@ + export_shell(es.skip(k as int)) == export_shell(es),
                decreases n - k,
            {
                proof {
                    lemma_shell_split(es, k as int);
                }
                push_lit(&mut out, "export ");
                push_lit(&mut out, project.secrets[k].0.as_str());
                push_lit(&mut out, "='");
                push_lit(&mut out, project.secrets[k].1.as_str());
                push_lit(&mut out, "'\n");
                proof {
                    assert(es[k as int] == (project.secrets@[k as int].0@,
                    project.secrets@[k as int].1@));
                    assert(out@ + export_shell(es.skip(k + 1)) =~= export_shell(es));
                }
                k = k + 1;
            }
            proof {
                assert(export_shell(es.skip(n as int)) =~= Seq::<char>::empty());
                assert(out@ =~= export_shell(es));
            }
        },
        ExportFormat::EnvFile => {
            proof {
                assert(es.skip(0) =~= es);
            }
            let mut k: usize = 0;
            while k < n
                invariant
                    n == project.secrets@.len(),
                    k <= n,
                    es == project@.secrets,
                    out@ + export_env(es.skip(k as int)) == export_env(es),
                decreases n - k,
            {
                proof {
                    lemma_env_split(es, k as int);
                }
                push_lit(&mut out, project.secrets[k].0.as_str());
                push_lit(&mut out, "=");
                push_lit(&mut out, project.secrets[k].1.as_str());
                push_lit(&mut out, "\n");
                proof {
                    assert(es[k as int] == (project.secrets@[k as int].0@,
                    project.secrets@[k as int].1@));
                    assert(out@ + export_env(es.skip(k + 1)) =~= export_env(es));
                }
                k = k + 1;
            }
            proof {
                assert(export_env(es.skip(n as int)) =~= Seq::<char>::empty());
                assert(out@ =~= export_env(es));
            }
        },
        ExportFormat::Json => {
            if n == 0 {
                push_lit(&mut out, "{}");
                proof {
                    assert(out@ =~= export_json(es));
                }
            } else {
                push_lit(&mut out, "{\n");
                proof {
                    assert(es.skip(0) =~= es);
                    assert(out@ + export_json_tail(es) =~= export_json(es));
                }
                let mut k: usize = 0;
                while k < n
                    invariant
                        n == project.secrets@.len(),
                        0 < n,
                        k <= n,
                        es == project@.secrets,
                        out@ + export_json_tail(es.skip(k as int)) == export_json(es),
                    decreases n - k,
                {
                    proof {
                        lemma_json_split(es, k as int);
                    }
                    push_lit(&mut out, "  ");
                    let key_chars = str_to_chars(project.secrets[k].0.as_str());
                    push_quoted(&mut out, &key_chars);
                    push_lit(&mut out, ": ");
                    let val_chars = str_to_chars(project.secrets[k].1.as_str());
                    push_quoted(&mut out, &val_chars);
                    if k + 1 < n {
                        push_lit(&mut out, ",\n");
                    }
                    proof {
                        assert(es[k as int] == (project.secrets@[k as int].0@,
                        project.secrets@[k as int].1@));
                        assert(es.skip(n as int) =~= Seq::<(Seq<char>, Seq<char>)>::empty());
                        assert(out@ + export_json_tail(es.skip(k + 1)) =~= export_json(es));
                    }
                    k = k + 1;
                }
                push_lit(&mut out, "\n}");
                proof {
                    assert(es.skip(n as int) =~= Seq::<(Seq<char>, Seq<char>)>::empty());
                    assert(out@ =~= export_json(es));
                }
            }
        },
    }
    proof {
        assert(out@ == export_spec(project@.secrets, *format));
    }
    chars_to_string(&out)
}

} // verus!
