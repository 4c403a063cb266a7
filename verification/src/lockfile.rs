//! `guroku.lock`: the lockfile.
//!
//! The schema is:
//!
//! ```json
//! {
//!   "lockfileVersion": 1,
//!   "generatedBy": "guroku 1.2.0",
//!   "packages": {
//!     "lodash@4.17.21": {
//!       "resolved": "https://registry.npmjs.org/lodash/-/lodash-4.17.21.tgz",
//!       "integrity": "sha512-...",
//!       "dependencies": { "package-name": "1.2.3" }
//!     }
//!   }
//! }
//! ```
//!
//! Keys in `packages` are always `<name>@<version>`; `<version>` is exact.
//! The values in each package's `dependencies` map are resolved exact
//! versions, not ranges.
use crate::error::{GurokuError, Result};
use crate::strmap::StrMap;
use crate::text::{concat3, rsplit_once, lemma_rfind_is};
use vstd::prelude::*;

verus! {

pub const LOCKFILE_NAME: &'static str = "guroku.lock";

pub const LOCKFILE_VERSION: u32 = 1;

/// The `generatedBy` stamp of lockfiles written by this version.
pub const GENERATED_BY: &'static str = "guroku 1.2.0";

#[derive(Debug)]
pub struct Lockfile {
    pub lockfile_version: u32,
    pub generated_by: String,
    pub packages: StrMap<PackageLock>,
}

#[derive(Debug)]
pub struct PackageLock {
    pub resolved: String,
    pub integrity: Option<String>,
    pub dependencies: StrMap<String>,
}

/// The key of a package: `<name>@<version>`.
pub open spec fn lock_key(name: Seq<char>, version: Seq<char>) -> Seq<char> {
    name + seq!['@'] + version
}

/// A key splits back into name and version at its last `@`, whenever the
/// version holds no `@`.
pub proof fn lemma_lock_key_split(name: Seq<char>, version: Seq<char>)
    requires
        !version.contains('@'),
    ensures
        rsplit_once(lock_key(name, version), '@') == Some((name, version)),
{
    let k = lock_key(name, version);
    assert(k[name.len() as int] == '@');
    assert forall|j: int| name.len() < j < k.len() implies k[j] != '@' by {
        assert(k[j] == version[j - name.len() - 1]);
    }
    lemma_rfind_is(k, '@', name.len() as int);
    assert(k.take(name.len() as int) =~= name);
    assert(k.skip((name.len() + 1) as int) =~= version);
}

impl Lockfile {
    pub fn new() -> (l: Lockfile)
        ensures
            l.lockfile_version == LOCKFILE_VERSION,
            l.generated_by@ == GENERATED_BY@,
            l.packages@ == Map::<Seq<char>, PackageLock>::empty(),
    {
        Lockfile {
            lockfile_version: LOCKFILE_VERSION,
            generated_by: GENERATED_BY.to_owned(),
            packages: StrMap::new(),
        }
    }

    pub fn key(name: &str, version: &str) -> (k: String)
        ensures
            k@ == lock_key(name@, version@),
    {
        proof {
            reveal_strlit("@");
        }
        concat3(name, "@", version)
    }

    pub fn insert(&mut self, name: &str, version: &str, entry: PackageLock)
        ensures
            final(self).packages@ == old(self).packages@.insert(lock_key(name@, version@), entry),
            final(self).lockfile_version == old(self).lockfile_version,
            final(self).generated_by == old(self).generated_by,
    {
        let k = Self::key(name, version);
        self.packages.insert(k, entry);
    }

    pub fn contains(&self, name: &str, version: &str) -> (b: bool)
        ensures
            b == self.packages@.contains_key(lock_key(name@, version@)),
    {
        let k = Self::key(name, version);
        self.packages.contains_key(k.as_str())
    }

    /// Accept a lockfile read from disk only when its version is the one
    /// this library understands.
    pub fn checked(self) -> (r: Result<Lockfile>)
        ensures
            self.lockfile_version == LOCKFILE_VERSION ==> r == Ok::<Lockfile, GurokuError>(self),
            self.lockfile_version != LOCKFILE_VERSION ==> (r matches Err(
                GurokuError::LockfileVersionMismatch { found, expected },
            ) && found == self.lockfile_version && expected == LOCKFILE_VERSION),
    {
        if self.lockfile_version != LOCKFILE_VERSION {
            return Err(
                GurokuError::LockfileVersionMismatch {
                    found: self.lockfile_version,
                    expected: LOCKFILE_VERSION,
                },
            );
        }
        Ok(self)
    }
}

impl Default for Lockfile {
    /// An empty lockfile of the current version (`Lockfile::new`).
    fn default() -> (l: Lockfile)
        ensures
            l.lockfile_version == LOCKFILE_VERSION,
            l.generated_by@ == GENERATED_BY@,
            l.packages@ == Map::<Seq<char>, PackageLock>::empty(),
    {
        Lockfile::new()
    }
}

/// After `insert(name, version, _)`, `contains(name, version)` holds.
pub proof fn lemma_insert_then_contains(
    packages: Map<Seq<char>, PackageLock>,
    name: Seq<char>,
    version: Seq<char>,
    entry: PackageLock,
)
    ensures
        packages.insert(lock_key(name, version), entry).contains_key(lock_key(name, version)),
        packages.insert(lock_key(name, version), entry)[lock_key(name, version)] == entry,
{
}

} // verus!
