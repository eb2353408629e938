//! The domain entities: a plaintext project with its named secrets and
//! timestamps, the encrypted envelope that is persisted in its place, and
//! the export formats.

use crate::clock::{now_timestamp, TS_MAX};
use vstd::prelude::*;

verus! {

/// The mathematical view of a project: its name, its secrets as an ordered
/// sequence of key-value pairs with unique keys, and its timestamps as
/// seconds since the epoch.
pub ghost struct ProjectView {
    pub name: Seq<char>,
    pub secrets: Seq<(Seq<char>, Seq<char>)>,
    pub created_at: int,
    pub updated_at: int,
}

impl ProjectView {
    /// The invariant every project maintains: timestamps are ordered and in
    /// the storable range, and no secret key repeats.
    pub open spec fn wf(self) -> bool {
        &&& 0 <= self.created_at <= self.updated_at <= TS_MAX as int
        &&& forall|i: int, j: int|
            0 <= i < j < self.secrets.len() ==> (#[trigger] self.secrets[i]).0
                != (#[trigger] self.secrets[j]).0
    }

    /// Whether a secret under this key is present.
    pub open spec fn has_key(self, k: Seq<char>) -> bool {
        exists|i: int| 0 <= i < self.secrets.len() && (#[trigger] self.secrets[i]).0 == k
    }
}

/// The view of an ordered list of string pairs as sequences of characters.
pub open spec fn pairs_view(v: Seq<(String, String)>) -> Seq<(Seq<char>, Seq<char>)> {
    v.map_values(|p: (String, String)| (p.0@, p.1@))
}

/// A project with its associated secrets, held in memory only; it is never
/// persisted in plaintext.
#[derive(Debug, Clone, PartialEq, Eq)]
pub struct Project {
    pub name: String,
    pub secrets: Vec<(String, String)>,
    pub created_at: i64,
    pub updated_at: i64,
}

impl View for Project {
    type V = ProjectView;

    open spec fn view(&self) -> ProjectView {
        ProjectView {
            name: self.name@,
            secrets: pairs_view(self.secrets@),
            created_at: self.created_at as int,
            updated_at: self.updated_at as int,
        }
    }
}

/// Force a clock reading into the storable range; an in-range reading is
/// kept as it is.
pub fn clamp_timestamp(t: i64) -> (r: i64)
    ensures
        0 <= r <= TS_MAX,
        0 <= t <= TS_MAX ==> r == t,
{
    if t < 0 {
        0
    } else if t > TS_MAX {
        TS_MAX
    } else {
        t
    }
}

impl Project {
    /// A new, empty project stamped with the current time.
    pub fn new(name: String) -> (r: Project)
        ensures
            r@.wf(),
            r@.name == name@,
            r@.secrets.len() == 0,
            r@.created_at == r@.updated_at,
    {
        let ts = clamp_timestamp(now_timestamp());
        let r = Project { name, secrets: Vec::new(), created_at: ts, updated_at: ts };
        proof {
            assert(r@.secrets =~= Seq::<(Seq<char>, Seq<char>)>::empty());
        }
        r
    }

    /// Insert or overwrite one secret, bumping the update time. An existing
    /// key keeps its position; a new key is appended.
    pub fn add_secret(&mut self, key: String, value: String)
        requires
            old(self)@.wf(),
        ensures
            final (self)@.wf(),
            final (self)@.name == old(self)@.name,
            final (self)@.created_at == old(self)@.created_at,
            final (self)@.updated_at >= old(self)@.updated_at,
            old(self)@.has_key(key@) ==> exists|i: int|
                0 <= i < old(self)@.secrets.len() && (#[trigger] old(self)@.secrets[i]).0 == key@
                    && final (self)@.secrets == old(self)@.secrets.update(i, (key@, value@)),
            !old(self)@.has_key(key@) ==> final (self)@.secrets == old(self)@.secrets.push(
                (key@, value@),
            ),
    {
        let ghost prev = self@.secrets;
        let mut i: usize = 0;
        let n = self.secrets.len();
        while i < n
            invariant
                old(self)@.wf(),
                n == self.secrets@.len(),
                i <= n,
                forall|j: int| 0 <= j < i ==> (#[trigger] prev[j]).0 != key@,
                prev == self@.secrets,
                prev == old(self)@.secrets,
                self.name == old(self).name,
                self.created_at == old(self).created_at,
                self.updated_at == old(self).updated_at,
            decreases n - i,
        {
            if self.secrets[i].0 == key {
                proof {
                    assert(old(self)@.secrets[i as int].0 == key@);
                    assert(old(self)@.has_key(key@));
                }
                self.secrets.remove(i);
                self.secrets.insert(i, (key, value));
                proof {
                    assert(0 <= self.created_at <= self.updated_at <= TS_MAX);
                }
                self.bump_updated();
                proof {
                    assert(final (self)@.secrets =~= prev.update(i as int, (key@, value@)));
                }
                return ;
            }
            i = i + 1;
        }
        self.secrets.push((key, value));
        self.bump_updated();
        proof {
            assert(final (self)@.secrets =~= prev.push((key@, value@)));
            assert(!old(self)@.has_key(key@));
        }
    }

    /// Remove one secret; returns its value when it was present, and bumps
    /// the update time only in that case.
    pub fn remove_secret(&mut self, key: &str) -> (r: Option<String>)
        requires
            old(self)@.wf(),
        ensures
            final (self)@.wf(),
            final (self)@.name == old(self)@.name,
            final (self)@.created_at == old(self)@.created_at,
            final (self)@.updated_at >= old(self)@.updated_at,
            old(self)@.has_key(key@) ==> r is Some && exists|i: int|
                0 <= i < old(self)@.secrets.len() && (#[trigger] old(self)@.secrets[i]).0 == key@
                    && r->0@ == old(self)@.secrets[i].1 && final (self)@.secrets == old(
                    self,
                )@.secrets.remove(i),
            !old(self)@.has_key(key@) ==> r is None && *final (self) == *old(self),
    {
        let ghost prev = self@.secrets;
        let key_owned = key.to_owned();
        let mut i: usize = 0;
        let n = self.secrets.len();
        while i < n
            invariant
                old(self)@.wf(),
                n == self.secrets@.len(),
                i <= n,
                key_owned@ == key@,
                forall|j: int| 0 <= j < i ==> (#[trigger] prev[j]).0 != key@,
                prev == self@.secrets,
                prev == old(self)@.secrets,
                *self == *old(self),
            decreases n - i,
        {
            if self.secrets[i].0 == key_owned {
                proof {
                    assert(old(self)@.secrets[i as int].0 == key@);
                    assert(old(self)@.has_key(key@));
                }
                let pair = self.secrets.remove(i);
                proof {
                    assert(0 <= self.created_at <= self.updated_at <= TS_MAX);
                }
                self.bump_updated();
                proof {
                    assert(final (self)@.secrets =~= prev.remove(i as int));
                    assert(pair.1@ == old(self)@.secrets[i as int].1);
                }
                return Some(pair.1);
            }
            i = i + 1;
        }
        proof {
            assert(!old(self)@.has_key(key@));
        }
        None
    }

    /// Look one secret up without touching the project.
    pub fn get_secret(&self, key: &str) -> (r: Option<String>)
        ensures
            r is Some <==> self@.has_key(key@),
            r is Some ==> exists|i: int|
                0 <= i < self@.secrets.len() && (#[trigger] self@.secrets[i]).0 == key@ && r->0@
                    == self@.secrets[i].1,
    {
        let key_owned = key.to_owned();
        let mut i: usize = 0;
        let n = self.secrets.len();
        while i < n
            invariant
                n == self.secrets@.len(),
                i <= n,
                key_owned@ == key@,
                forall|j: int| 0 <= j < i ==> (#[trigger] self@.secrets[j]).0 != key@,
            decreases n - i,
        {
            if self.secrets[i].0 == key_owned {
                proof {
                    assert(self@.secrets[i as int].0 == key@);
                    assert(self@.has_key(key@));
                }
                let v = self.secrets[i].1.clone();
                proof {
                    assert(v@ == self@.secrets[i as int].1);
                }
                return Some(v);
            }
            i = i + 1;
        }
        proof {
            assert(!self@.has_key(key@));
        }
        None
    }

    /// The secret keys, in storage order.
    pub fn list_secrets(&self) -> (r: Vec<String>)
        ensures
            r@.len() == self@.secrets.len(),
            forall|i: int| 0 <= i < r@.len() ==> (#[trigger] r@[i])@ == self@.secrets[i].0,
    {
        let mut out: Vec<String> = Vec::new();
        let mut i: usize = 0;
        let n = self.secrets.len();
        while i < n
            invariant
                n == self.secrets@.len(),
                i <= n,
                out@.len() == i,
                forall|j: int| 0 <= j < i ==> (#[trigger] out@[j])@ == self@.secrets[j].0,
            decreases n - i,
        {
            out.push(self.secrets[i].0.clone());
            i = i + 1;
        }
        out
    }

    /// Move the update time forward to the clamped current time; it never
    /// goes backward.
    fn bump_updated(&mut self)
        requires
            0 <= old(self).created_at <= old(self).updated_at <= TS_MAX,
        ensures
            final (self).name == old(self).name,
            final (self).secrets == old(self).secrets,
            final (self).created_at == old(self).created_at,
            old(self).updated_at <= final (self).updated_at <= TS_MAX,
    {
        let now = clamp_timestamp(now_timestamp());
        if now > self.updated_at {
            self.updated_at = now;
        }
    }
}

/// The mathematical view of a stored envelope: its three base64 fields.
pub ghost struct EnvelopeView {
    pub encrypted_data: Seq<char>,
    pub salt: Seq<char>,
    pub nonce: Seq<char>,
}

/// The persisted form of a project: ciphertext with its authentication tag,
/// the key-derivation salt, and the cipher nonce, each base64-encoded. It
/// carries everything needed to attempt decryption given only the password.
#[derive(Debug, Clone, PartialEq, Eq)]
pub struct EncryptedProject {
    pub encrypted_data: String,
    pub salt: String,
    pub nonce: String,
}

impl View for EncryptedProject {
    type V = EnvelopeView;

    open spec fn view(&self) -> EnvelopeView {
        EnvelopeView {
            encrypted_data: self.encrypted_data@,
            salt: self.salt@,
            nonce: self.nonce@,
        }
    }
}

/// The formats a project's secrets can be exported in.
#[derive(Debug, Clone)]
pub enum ExportFormat {
    Shell,
    EnvFile,
    Json,
}

} // verus!
