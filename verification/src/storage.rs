//! The project store: it maps project names to envelope files under a
//! storage root, rejects names that could escape that root, and composes
//! serialization with the crypto envelope into whole save and load
//! operations. The store computes only; the surrounding application reads
//! and writes the files it names, writing each file to the temporary path
//! first and renaming it into place so a crash never leaves a truncated
//! envelope under the final name.

use crate::crypto::{
    decrypt_project, encrypt_project, envelope_seals, project_payload, MAX_PLAINTEXT,
};
use crate::envelope::{parse_envelope, ser_envelope, serialize_envelope};
use crate::errors::VaultError;
use crate::models::{EnvelopeView, Project, ProjectView};
use crate::text::{bytes_to_string, lemma_lex_refl, lemma_lex_total, lex_le, str_le, str_to_chars, views_of};
use vstd::prelude::*;
use vstd::multiset::Multiset;
use vstd::seq_lib::group_to_multiset_ensures;
use vstd::string::{StrSliceExecFns, StringExecFns};
use vstd::utf8::{decode_utf8, encode_utf8, valid_utf8};

verus! {

broadcast use group_to_multiset_ensures;

/// A project name is safe as a file stem: non-empty, free of path
/// separators and NUL, and not a relative-directory name.
pub open spec fn valid_project_name(s: Seq<char>) -> bool {
    &&& s.len() > 0
    &&& s != "."@
    &&& s != ".."@
    &&& forall|i: int|
        0 <= i < s.len() ==> #[trigger] s[i] != '/' && s[i] != '\\' && s[i] != '\u{0}'
}

/// The file name that stores a project.
pub open spec fn file_name_spec(name: Seq<char>) -> Seq<char> {
    name + ".encrypted"@
}

/// The full path of a project's envelope file under a storage root.
pub open spec fn path_spec(dir: Seq<char>, name: Seq<char>) -> Seq<char> {
    dir + "/"@ + file_name_spec(name)
}

/// A file name that the listing recognizes as an envelope.
pub open spec fn is_envelope_name(e: Seq<char>) -> bool {
    e.len() > ".encrypted"@.len() && e.skip(e.len() - ".encrypted"@.len()) == ".encrypted"@
}

/// The project name an envelope file name stands for.
pub open spec fn stem_of(e: Seq<char>) -> Seq<char> {
    e.take(e.len() - ".encrypted"@.len())
}

/// The stems of the envelope files among the directory entries, in order.
pub open spec fn stems_of(es: Seq<Seq<char>>) -> Seq<Seq<char>>
    decreases es.len(),
{
    if es.len() == 0 {
        Seq::empty()
    } else {
        (if is_envelope_name(es[0]) {
            seq![stem_of(es[0])]
        } else {
            Seq::<Seq<char>>::empty()
        }) + stems_of(es.drop_first())
    }
}

/// An entry equal to this file name occurs in the listing.
pub open spec fn contains_file(es: Seq<Seq<char>>, f: Seq<char>) -> bool {
    exists|i: int| 0 <= i < es.len() && es[i] == f
}

/// A project name's envelope file name is recognized by the listing and
/// strips back to the name.
pub proof fn lemma_file_name_stem(name: Seq<char>)
    requires
        name.len() > 0,
    ensures
        is_envelope_name(file_name_spec(name)),
        stem_of(file_name_spec(name)) == name,
{
    let f = file_name_spec(name);
    assert(f.skip(f.len() - ".encrypted"@.len()) =~= ".encrypted"@);
    assert(f.take(f.len() - ".encrypted"@.len()) =~= name);
}

/// Deleting a project's envelope from a directory leaves no envelope under
/// that name: afterwards an existence check must come up empty, whatever
/// the directory held before.
pub proof fn lemma_delete_then_absent(entries: Seq<Seq<char>>, name: Seq<char>)
    ensures
        !contains_file(
            entries.filter(|e: Seq<char>| e != file_name_spec(name)),
            file_name_spec(name),
        ),
{
    broadcast use vstd::seq_lib::group_filter_ensures;

    let kept = entries.filter(|e: Seq<char>| e != file_name_spec(name));
    if contains_file(kept, file_name_spec(name)) {
        let i = choose|i: int| 0 <= i < kept.len() && kept[i] == file_name_spec(name);
        assert(kept.contains(kept[i]));
        assert(false);
    }
}

/// The planned write of one envelope file: the application writes
/// `contents` to `temp_path`, then renames it onto `path`.
pub struct SavePlan {
    pub path: String,
    pub temp_path: String,
    pub contents: Vec<u8>,
}

/// The bytes of a serialized envelope file.
pub open spec fn envelope_bytes(env: EnvelopeView) -> Seq<u8> {
    encode_utf8(ser_envelope(env))
}

/// Check a project name against `valid_project_name`.
pub fn validate_project_name(name: &str) -> (r: bool)
    ensures
        r == valid_project_name(name@),
{
    let cs = str_to_chars(name);
    let n = cs.len();
    if n == 0 {
        return false;
    }
    let mut i: usize = 0;
    while i < n
        invariant
            n == cs@.len(),
            cs@ == name@,
            i <= n,
            forall|j: int|
                0 <= j < i ==> #[trigger] name@[j] != '/' && name@[j] != '\\' && name@[j]
                    != '\u{0}',
        decreases n - i,
    {
        let c = cs[i];
        if c == '/' || c == '\\' || c == '\u{0}' {
            return false;
        }
        i = i + 1;
    }
    proof {
        reveal_strlit(".");
        reveal_strlit("..");
    }
    if n == 1 && cs[0] == '.' {
        proof {
            assert(name@ =~= "."@);
        }
        return false;
    }
    if n == 2 && cs[0] == '.' && cs[1] == '.' {
        proof {
            assert(name@ =~= ".."@);
        }
        return false;
    }
    proof {
        if name@ == "."@ {
            assert(name@.len() == 1 && name@[0] == '.');
        }
        if name@ == ".."@ {
            assert(name@.len() == 2 && name@[0] == '.' && name@[1] == '.');
        }
    }
    true
}

/// The store over one storage root. It owns no file handles and performs
/// no I/O: every operation is a pure computation over the values the
/// application hands it.
pub struct SecretStorage {
    storage_dir: String,
}

impl View for SecretStorage {
    type V = Seq<char>;

    closed spec fn view(&self) -> Seq<char> {
        self.storage_dir@
    }
}

impl SecretStorage {
    /// A store rooted at the given directory path.
    pub fn new(storage_dir: String) -> (r: SecretStorage)
        ensures
            r@ == storage_dir@,
    {
        SecretStorage { storage_dir }
    }

    /// The file path that stores the named project; traversal-capable
    /// names are rejected rather than resolved.
    pub fn get_project_path(&self, project_name: &str) -> (r: Result<String, VaultError>)
        ensures
            r is Ok <==> valid_project_name(project_name@),
            r is Err ==> r->Err_0 == VaultError::InvalidName,
            r is Ok ==> r->Ok_0@ == path_spec(self@, project_name@),
    {
        if !validate_project_name(project_name) {
            return Err(VaultError::InvalidName);
        }
        let mut p = String::new();
        p.append(self.storage_dir.as_str());
        p.append("/");
        p.append(project_name);
        p.append(".encrypted");
        proof {
            assert(p@ =~= path_spec(self@, project_name@));
        }
        Ok(p)
    }

    /// Plan the save of a project: encrypt it under a fresh salt and nonce
    /// and lay out the file write. Saving always overwrites; creation
    /// semantics are the caller's to enforce.
    pub fn save_project(&self, project: &Project, password: &str) -> (r: Result<
        SavePlan,
        VaultError,
    >)
        requires
            project@.wf(),
        ensures
            (r is Err && r->Err_0 == VaultError::InvalidName) <==> !valid_project_name(
                project@.name,
            ),
            r is Err ==> r->Err_0 == VaultError::InvalidName || r->Err_0
                == VaultError::PayloadTooLarge,
            r is Ok <==> valid_project_name(project@.name) && project_payload(project@).len()
                <= MAX_PLAINTEXT,
            r is Ok ==> r->Ok_0.path@ == path_spec(self@, project@.name) && r->Ok_0.temp_path@
                == path_spec(self@, project@.name) + ".tmp"@,
            r is Ok ==> exists|env: EnvelopeView|
                r->Ok_0.contents@ == envelope_bytes(env) && #[trigger] envelope_seals(
                    env,
                    project_payload(project@),
                    password@,
                ),
    {
        let path = match self.get_project_path(project.name.as_str()) {
            Ok(p) => p,
            Err(e) => {
                return Err(e);
            },
        };
        let env = match encrypt_project(project, password) {
            Ok(env) => env,
            Err(e) => {
                return Err(e);
            },
        };
        let text = serialize_envelope(&env);
        let contents = text.as_str().as_bytes_vec();
        let mut temp_path = path.clone();
        temp_path.append(".tmp");
        proof {
            assert(contents@ == envelope_bytes(env@));
        }
        Ok(SavePlan { path, temp_path, contents })
    }

    /// Load a project from the bytes the application read for this name;
    /// `None` stands for a missing file. Any well-formed project whose
    /// envelope file these bytes are, sealed under this password, is
    /// returned exactly.
    pub fn load_project(&self, project_name: &str, password: &str, file: Option<&Vec<u8>>) -> (r:
        Result<Project, VaultError>)
        ensures
            (r is Err && r->Err_0 == VaultError::InvalidName) <==> !valid_project_name(
                project_name@,
            ),
            (r is Err && r->Err_0 == VaultError::NotFound) <==> valid_project_name(project_name@)
                && file is None,
            r is Err ==> r->Err_0 == VaultError::InvalidName || r->Err_0 == VaultError::NotFound
                || r->Err_0 == VaultError::MalformedEnvelope || r->Err_0
                == VaultError::AuthenticationFailed || r->Err_0 == VaultError::CorruptData,
            r is Ok ==> r->Ok_0@.wf(),
            forall|q: ProjectView, env: EnvelopeView|
                {
                    &&& q.wf()
                    &&& valid_project_name(project_name@)
                    &&& file is Some
                    &&& file->0@ == envelope_bytes(env)
                    &&& project_payload(q).len() <= MAX_PLAINTEXT
                    &&& #[trigger] envelope_seals(env, project_payload(q), password@)
                } ==> r is Ok && r->Ok_0@ == q,
    {
        if !validate_project_name(project_name) {
            return Err(VaultError::InvalidName);
        }
        let bytes = match file {
            Some(b) => b,
            None => {
                return Err(VaultError::NotFound);
            },
        };
        proof {
            assert forall|env: EnvelopeView| bytes@ == #[trigger] envelope_bytes(env) implies
            valid_utf8(bytes@) && decode_utf8(bytes@) == ser_envelope(env) by {
                vstd::utf8::encode_utf8_valid_utf8(ser_envelope(env));
                vstd::utf8::encode_utf8_decode_utf8(ser_envelope(env));
            }
        }
        let text = match bytes_to_string(bytes) {
            Some(t) => t,
            None => {
                return Err(VaultError::MalformedEnvelope);
            },
        };
        let env = match parse_envelope(text.as_str()) {
            Some(e) => e,
            None => {
                return Err(VaultError::MalformedEnvelope);
            },
        };
        decrypt_project(&env, password)
    }

    /// The names of all stored projects, given the file names in the
    /// storage root: every envelope file's stem, in ascending order.
    pub fn list_projects(&self, entries: &Vec<String>) -> (r: Vec<String>)
        ensures
            views_of(r@).to_multiset() == stems_of(views_of(entries@)).to_multiset(),
            forall|i: int, j: int|
                0 <= i < j < r@.len() ==> lex_le(#[trigger] r@[i]@, #[trigger] r@[j]@),
    {
        let mut found: Vec<String> = Vec::new();
        let n = entries.len();
        let mut i: usize = 0;
        while i < n
            invariant
                n == entries@.len(),
                i <= n,
                views_of(found@) == stems_of(views_of(entries@).take(i as int)),
            decreases n - i,
        {
            proof {
                lemma_stems_snoc(views_of(entries@), i as int);
            }
            let cs = str_to_chars(entries[i].as_str());
            if let Some(stem) = envelope_stem(&cs) {
                found.push(stem);
                proof {
                    assert(views_of(found@) =~= stems_of(views_of(entries@).take(i + 1)));
                }
            } else {
                proof {
                    assert(views_of(found@) =~= stems_of(views_of(entries@).take(i + 1)));
                }
            }
            i = i + 1;
        }
        proof {
            assert(views_of(entries@).take(n as int) =~= views_of(entries@));
        }
        sort_names(found)
    }

    /// Whether an envelope for this name stands among the directory
    /// entries; a name the store would reject is never present.
    pub fn project_exists(&self, project_name: &str, entries: &Vec<String>) -> (r: bool)
        ensures
            r == (valid_project_name(project_name@) && contains_file(
                views_of(entries@),
                file_name_spec(project_name@),
            )),
    {
        if !validate_project_name(project_name) {
            return false;
        }
        let mut target = String::new();
        target.append(project_name);
        target.append(".encrypted");
        proof {
            assert(target@ =~= file_name_spec(project_name@));
        }
        let n = entries.len();
        let mut i: usize = 0;
        while i < n
            invariant
                valid_project_name(project_name@),
                n == entries@.len(),
                i <= n,
                target@ == file_name_spec(project_name@),
                forall|j: int| 0 <= j < i ==> views_of(entries@)[j] != file_name_spec(project_name@),
            decreases n - i,
        {
            if entries[i] == target {
                proof {
                    assert(views_of(entries@)[i as int] == file_name_spec(project_name@));
                }
                return true;
            }
            i = i + 1;
        }
        false
    }

    /// The path to remove for a deletion; a missing envelope is reported
    /// as `NotFound`, and the caller performs the removal.
    pub fn delete_project(&self, project_name: &str, present: bool) -> (r: Result<
        String,
        VaultError,
    >)
        ensures
            (r is Err && r->Err_0 == VaultError::InvalidName) <==> !valid_project_name(
                project_name@,
            ),
            (r is Err && r->Err_0 == VaultError::NotFound) <==> valid_project_name(project_name@)
                && !present,
            r is Ok <==> valid_project_name(project_name@) && present,
            r is Ok ==> r->Ok_0@ == path_spec(self@, project_name@),
    {
        let path = match self.get_project_path(project_name) {
            Ok(p) => p,
            Err(e) => {
                return Err(e);
            },
        };
        if !present {
            return Err(VaultError::NotFound);
        }
        Ok(path)
    }
}

/// Listing a longer prefix of the entries appends at most one stem.
proof fn lemma_stems_snoc(es: Seq<Seq<char>>, i: int)
    requires
        0 <= i < es.len(),
    ensures
        stems_of(es.take(i + 1)) == stems_of(es.take(i)) + (if is_envelope_name(es[i]) {
            seq![stem_of(es[i])]
        } else {
            Seq::<Seq<char>>::empty()
        }),
    decreases i,
{
    if i == 0 {
        assert(es.take(1)[0] == es[0]);
        assert(es.take(1).drop_first() =~= Seq::<Seq<char>>::empty());
        assert(stems_of(es.take(1).drop_first()) =~= Seq::<Seq<char>>::empty());
        assert(stems_of(es.take(0)) =~= Seq::<Seq<char>>::empty());
        assert(stems_of(es.take(1)) =~= stems_of(es.take(0)) + (if is_envelope_name(es[0]) {
            seq![stem_of(es[0])]
        } else {
            Seq::<Seq<char>>::empty()
        }));
    } else {
        lemma_stems_snoc(es.drop_first(), i - 1);
        assert(es.take(i + 1).drop_first() =~= es.drop_first().take(i));
        assert(es.take(i).drop_first() =~= es.drop_first().take(i - 1));
        assert(es.take(i + 1)[0] == es[0] && es.take(i)[0] == es[0]);
        assert(es.drop_first()[i - 1] == es[i]);
        assert(stems_of(es.take(i + 1)) =~= stems_of(es.take(i)) + (if is_envelope_name(es[i]) {
            seq![stem_of(es[i])]
        } else {
            Seq::<Seq<char>>::empty()
        }));
    }
}

/// The stem of an envelope file name, if the name is one.
fn envelope_stem(cs: &Vec<char>) -> (r: Option<String>)
    ensures
        r is Some <==> is_envelope_name(cs@),
        r is Some ==> r->0@ == stem_of(cs@),
{
    let suffix = str_to_chars(".encrypted");
    let sn = suffix.len();
    let n = cs.len();
    if n <= sn {
        return None;
    }
    let mut k: usize = 0;
    while k < sn
        invariant
            sn == ".encrypted"@.len(),
            suffix@ == ".encrypted"@,
            n == cs@.len(),
            n > sn,
            k <= sn,
            forall|t: int| 0 <= t < k ==> cs@[n - sn + t] == ".encrypted"@[t],
        decreases sn - k,
    {
        if cs[n - sn + k] != suffix[k] {
            proof {
                if is_envelope_name(cs@) {
                    assert(cs@.skip(n - sn)[k as int] == ".encrypted"@[k as int]);
                }
            }
            return None;
        }
        k = k + 1;
    }
    proof {
        assert(cs@.skip(n - sn) =~= ".encrypted"@);
    }
    let mut stem_chars: Vec<char> = Vec::new();
    let mut t: usize = 0;
    while t < n - sn
        invariant
            n == cs@.len(),
            n > sn,
            sn <= n,
            t <= n - sn,
            stem_chars@ == cs@.take(t as int),
        decreases n - sn - t,
    {
        stem_chars.push(cs[t]);
        proof {
            assert(stem_chars@ =~= cs@.take(t + 1));
        }
        t = t + 1;
    }
    proof {
        assert(stem_chars@ =~= stem_of(cs@));
    }
    Some(crate::text::chars_to_string(&stem_chars))
}

/// Sort project names ascending by `lex_le`, keeping the collection of
/// names exactly.
fn sort_names(input: Vec<String>) -> (r: Vec<String>)
    ensures
        views_of(r@).to_multiset() == views_of(input@).to_multiset(),
        forall|i: int, j: int|
            0 <= i < j < r@.len() ==> lex_le(#[trigger] r@[i]@, #[trigger] r@[j]@),
{
    let mut src = input;
    let mut out: Vec<String> = Vec::new();
    let ghost orig = views_of(src@);
    proof {
        assert(views_of(out@) =~= Seq::<Seq<char>>::empty());
        assert(views_of(out@).to_multiset() =~= Multiset::<Seq<char>>::empty());
        assert(views_of(out@).to_multiset().add(views_of(src@).to_multiset()) =~= orig.to_multiset());
    }
    while src.len() > 0
        invariant
            views_of(out@).to_multiset().add(views_of(src@).to_multiset()) == orig.to_multiset(),
            forall|i: int, j: int|
                0 <= i < j < out@.len() ==> lex_le(#[trigger] out@[i]@, #[trigger] out@[j]@),
            forall|i: int, j: int|
                0 <= i < out@.len() && 0 <= j < src@.len() ==> lex_le(
                    #[trigger] out@[i]@,
                    #[trigger] src@[j]@,
                ),
        decreases src@.len(),
    {
        let mut mi: usize = 0;
        let mut k: usize = 1;
        proof {
            lemma_lex_refl(views_of(src@)[0]);
            assert(views_of(src@)[0] == src@[0]@);
        }
        while k < src.len()
            invariant
                src@.len() > 0,
                mi < k <= src@.len(),
                forall|j: int| 0 <= j < k ==> lex_le(src@[mi as int]@, #[trigger] src@[j]@),
            decreases src@.len() - k,
        {
            if !str_le(src[mi].as_str(), src[k].as_str()) {
                proof {
                    lemma_lex_total(src@[mi as int]@, src@[k as int]@);
                    assert forall|j: int| 0 <= j < k + 1 implies lex_le(
                        src@[k as int]@,
                        #[trigger] src@[j]@,
                    ) by {
                        if j == k {
                            lemma_lex_refl(src@[k as int]@);
                        } else {
                            lemma_lex_trans(src@[k as int]@, src@[mi as int]@, src@[j]@);
                        }
                    }
                }
                mi = k;
            }
            k = k + 1;
        }
        let ghost pre = views_of(src@);
        let ghost out_pre = views_of(out@);
        let x = src.remove(mi);
        out.push(x);
        proof {
            assert(views_of(src@) =~= pre.remove(mi as int));
            assert(views_of(out@) =~= out_pre.push(x@));
            assert(pre[mi as int] == x@);
            assert(pre.to_multiset().contains(x@)) by {
                assert(pre.contains(pre[mi as int]));
            }
            assert(views_of(out@).to_multiset().add(views_of(src@).to_multiset())
                == orig.to_multiset()) by {
                assert(views_of(out@).to_multiset() =~= out_pre.to_multiset().insert(x@));
                assert(views_of(src@).to_multiset() =~= pre.to_multiset().remove(x@));
                assert(out_pre.to_multiset().insert(x@).add(pre.to_multiset().remove(x@))
                    =~= out_pre.to_multiset().add(pre.to_multiset()));
            }
            assert forall|i: int, j: int|
                0 <= i < out@.len() && 0 <= j < src@.len() implies lex_le(
                #[trigger] out@[i]@,
                #[trigger] src@[j]@,
            ) by {
                assert(views_of(src@)[j] == pre.remove(mi as int)[j]);
                if i < out@.len() - 1 {
                } else {
                    if j < mi {
                        assert(src@[j]@ == pre[j]);
                    } else {
                        assert(src@[j]@ == pre[j + 1]);
                    }
                }
            }
        }
    }
    proof {
        assert(views_of(src@).to_multiset() =~= Multiset::<Seq<char>>::empty());
        assert(views_of(out@).to_multiset() =~= orig.to_multiset());
    }
    out
}

/// `lex_le` is transitive.
proof fn lemma_lex_trans(a: Seq<char>, b: Seq<char>, c: Seq<char>)
    requires
        lex_le(a, b),
        lex_le(b, c),
    ensures
        lex_le(a, c),
    decreases a.len() + b.len() + c.len(),
{
    if a.len() == 0 {
    } else if b.len() == 0 {
    } else if c.len() == 0 {
    } else {
        vstd::utf8::char_u32_cast(a[0], a[0] as u32);
        vstd::utf8::char_u32_cast(b[0], b[0] as u32);
        vstd::utf8::char_u32_cast(c[0], c[0] as u32);
        if a[0] == b[0] && b[0] == c[0] {
            lemma_lex_trans(a.drop_first(), b.drop_first(), c.drop_first());
        }
    }
}

} // verus!
