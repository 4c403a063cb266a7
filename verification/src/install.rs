//! The decisions of `guroku install`, `add`, `remove`, `run` and `exec`.
//!
//! Reading and writing files, downloading and spawning processes are done by
//! the caller; what to fetch, what to check, what to link and what to write
//! is decided here.
use crate::error::{GurokuError, Result};
use crate::integrity::{verify, verify_result};
use crate::linker::linked_deps;
use crate::lockfile::{lock_key, Lockfile, PackageLock};
use crate::registry::{opt_view, url_parse, url_parsed, copy_opt, Dist, VersionInfo, InfoModel};
use crate::resolver::{Resolution, Resolved};
use crate::strmap::{text_map, StrMap};
use crate::paths::{join_path, path_join};
use crate::text::{concat2, concat3, find, find_char, rsplit_once, rsplit_once_char, slice, split_char, split_once, split_once_char};
use vstd::prelude::*;

verus! {

pub open spec fn lit_latest() -> Seq<char> {
    seq!['l', 'a', 't', 'e', 's', 't']
}

/// How a package spec from the command line splits into a name and a
/// version spec: `lodash`, `lodash@4.17.21`, `@scope/x` or `@scope/x@1`.
/// Without a version the spec is `latest`.
pub open spec fn parse_spec_spec(s: Seq<char>) -> (Seq<char>, Seq<char>) {
    if s.len() > 0 && s[0] == '@' {
        let rest = s.skip(1);
        match find(rest, '@') {
            Some(i) => (seq!['@'] + rest.take(i), rest.skip(i + 1)),
            None => (s, lit_latest()),
        }
    } else {
        match split_once(s, '@') {
            Some((n, v)) => (n, v),
            None => (s, lit_latest()),
        }
    }
}

/// Split a command-line package spec into its name and version spec.
pub fn parse_spec(input: &str) -> (r: (String, String))
    ensures
        (r.0@, r.1@) == parse_spec_spec(input@),
{
    proof {
        reveal_strlit("latest");
        reveal_strlit("@");
        assert("latest"@ =~= lit_latest());
    }
    let n = input.unicode_len();
    if n > 0 && input.get_char(0) == '@' {
        let rest = slice(input, 1, n);
        assert(rest@ =~= input@.skip(1));
        match find_char(rest.as_str(), '@') {
            Some(i) => {
                proof {
                    crate::text::lemma_find_props(rest@, '@');
                }
                let m = rest.unicode_len();
                let name_part = slice(rest.as_str(), 0, i);
                let ver_part = slice(rest.as_str(), i + 1, m);
                let name = concat2("@", name_part.as_str());
                assert(ver_part@ =~= rest@.skip(i + 1));
                assert(name_part@ =~= rest@.take(i as int));
                return (name, ver_part);
            },
            None => {
                return (input.to_owned(), "latest".to_owned());
            },
        }
    }
    match split_once_char(input, '@') {
        Some((a, b)) => (a, b),
        None => (input.to_owned(), "latest".to_owned()),
    }
}

/// Whether a lockfile key stands for the root dependency `name`: the key is
/// `<name>@<version>`, its name being the text before its last `@`.
pub open spec fn key_covers(key: Seq<char>, name: Seq<char>) -> bool {
    match rsplit_once(key, '@') {
        Some((k_name, _)) => k_name == name,
        None => false,
    }
}

/// Whether every root dependency has an entry in the lockfile.
pub open spec fn lock_covers_spec(keys: Set<Seq<char>>, roots: Seq<(Seq<char>, Seq<char>)>) -> bool {
    forall|i: int| 0 <= i < roots.len() ==> #[trigger] covered(keys, roots[i].0)
}

/// Whether some key of the lockfile stands for `name`.
pub open spec fn covered(keys: Set<Seq<char>>, name: Seq<char>) -> bool {
    exists|k: Seq<char>| keys.contains(k) && #[trigger] key_covers(k, name)
}

fn key_covers_exec(key: &str, name: &str) -> (b: bool)
    ensures
        b == key_covers(key@, name@),
{
    match rsplit_once_char(key, '@') {
        Some((k_name, _)) => crate::text::str_eq(k_name.as_str(), name),
        None => false,
    }
}

/// Whether `lock` has an entry for every root (the `--frozen-lockfile`
/// check).
pub fn lock_covers(lock: &Lockfile, roots: &Vec<(String, String)>) -> (b: bool)
    ensures
        b == lock_covers_spec(lock.packages@.dom(), crate::manifest::text_pairs(roots@)),
{
    let ghost rs = crate::manifest::text_pairs(roots@);
    let n = roots.len();
    let m = lock.packages.len();
    proof {
        lock.packages.lemma_view();
        crate::strmap::lemma_map_of_sorted(lock.packages.pairs());
    }
    let mut i: usize = 0;
    while i < n
        invariant
            n == roots@.len(),
            rs == crate::manifest::text_pairs(roots@),
            m == lock.packages.pairs().len(),
            lock.packages@ == crate::strmap::map_of(lock.packages.pairs()),
            forall|q: int|
                0 <= q < m ==> #[trigger] lock.packages@.contains_key(
                    lock.packages.pairs()[q].0@,
                ),
            forall|k: Seq<char>|
                #[trigger] lock.packages@.contains_key(k) ==> exists|q: int|
                    0 <= q < m && (#[trigger] lock.packages.pairs()[q]).0@ == k,
            i <= n,
            forall|t: int| 0 <= t < i ==> #[trigger] covered(lock.packages@.dom(), rs[t].0),
        decreases n - i,
    {
        let name = &roots[i].0;
        assert(rs[i as int].0 == name@);
        let mut found = false;
        let mut j: usize = 0;
        while j < m
            invariant
                m == lock.packages.pairs().len(),
                j <= m,
                forall|q: int|
                    0 <= q < m ==> #[trigger] lock.packages@.contains_key(
                        lock.packages.pairs()[q].0@,
                    ),
                found ==> covered(lock.packages@.dom(), name@),
                !found ==> forall|q: int| 0 <= q < j ==> !key_covers(
                    (#[trigger] lock.packages.pairs()[q]).0@,
                    name@,
                ),
            ensures
                found ==> covered(lock.packages@.dom(), name@),
                !found ==> forall|q: int| 0 <= q < m ==> !key_covers(
                    (#[trigger] lock.packages.pairs()[q]).0@,
                    name@,
                ),
            decreases m - j,
        {
            let key = lock.packages.key_at(j);
            if key_covers_exec(key.as_str(), name.as_str()) {
                assert(lock.packages@.contains_key(lock.packages.pairs()[j as int].0@));
                assert(lock.packages@.dom().contains(key@));
                found = true;
                break;
            }
            j = j + 1;
        }
        if !found {
            proof {
                assert forall|k: Seq<char>| lock.packages@.contains_key(k) implies !key_covers(
                    k,
                    rs[i as int].0,
                ) by {
                    let q = choose|q: int|
                        0 <= q < m && (#[trigger] lock.packages.pairs()[q]).0@ == k;
                    assert(!key_covers(lock.packages.pairs()[q].0@, name@));
                }
            }
            assert(!covered(lock.packages@.dom(), rs[i as int].0));
            return false;
        }
        assert(covered(lock.packages@.dom(), rs[i as int].0));
        i = i + 1;
    }
    true
}

/// Check a downloaded tarball before it enters the store: against its
/// `integrity`. A record without `integrity` is refused, so no unverified
/// bytes reach the store (its `shasum` alone is not checked).
pub fn check_tarball(info: &VersionInfo, bytes: &[u8]) -> (r: Result<()>)
    ensures
        match info@.integrity {
            Some(i) => verify_result(bytes@, i, info@.name, info@.version, r),
            None => r matches Err(GurokuError::IntegrityMismatch { name, version, detail }) && name@
                == info@.name && version@ == info@.version && detail@ == if info@.shasum is None {
                "no integrity or shasum field on registry record"@
            } else {
                "no integrity field on registry record (shasum is not checked)"@
            },
        },
{
    match &info.dist.integrity {
        Some(integ) => verify(bytes, integ.as_str(), info.name.as_str(), info.version.as_str()),
        None => {
            let detail = if info.dist.shasum.is_none() {
                "no integrity or shasum field on registry record".to_owned()
            } else {
                "no integrity field on registry record (shasum is not checked)".to_owned()
            };
            Err(
                GurokuError::IntegrityMismatch {
                    name: info.name.clone(),
                    version: info.version.clone(),
                    detail,
                },
            )
        },
    }
}

// ---------------------------------------------------------------------------
// Writing the lockfile
// ---------------------------------------------------------------------------

/// The value of a lockfile entry: its tarball URL, integrity and exact
/// dependency versions.
pub open spec fn lock_model(p: PackageLock) -> (Seq<char>, Option<Seq<char>>, Map<Seq<char>, Seq<char>>) {
    (p.resolved@, opt_view(p.integrity), text_map(p.dependencies@))
}

/// The lockfile entry recorded for a resolved package: its tarball URL,
/// integrity, and each of its dependencies that the resolution holds with
/// the exact version chosen for it.
pub open spec fn entry_of(r: Resolved, res: Map<Seq<char>, Resolved>) -> (Seq<char>, Option<Seq<char>>, Map<Seq<char>, Seq<char>>) {
    (r.info.dist.tarball@, opt_view(r.info.dist.integrity), linked_deps(r.info.dependencies@, res))
}

/// The entries of the lockfile of a resolution: one per resolved package,
/// under `<name>@<version>`, inserted in the resolution's order.
pub open spec fn locked(pairs: Seq<(String, Resolved)>, res: Map<Seq<char>, Resolved>) -> Map<Seq<char>, (Seq<char>, Option<Seq<char>>, Map<Seq<char>, Seq<char>>)>
    decreases pairs.len(),
{
    if pairs.len() == 0 {
        Map::empty()
    } else {
        let (name, r) = pairs.last();
        locked(pairs.drop_last(), res).insert(lock_key(name@, r.info.version@), entry_of(r, res))
    }
}

pub open spec fn lock_view(m: Map<Seq<char>, PackageLock>) -> Map<Seq<char>, (Seq<char>, Option<Seq<char>>, Map<Seq<char>, Seq<char>>)> {
    m.map_values(|p: PackageLock| lock_model(p))
}

/// The lockfile that records a resolution (what `install` writes).
pub fn lockfile_from_resolution(resolution: &Resolution) -> (l: Lockfile)
    ensures
        l.lockfile_version == crate::lockfile::LOCKFILE_VERSION,
        l.generated_by@ == crate::lockfile::GENERATED_BY@,
        lock_view(l.packages@) == locked(resolution.packages.pairs(), resolution.packages@),
{
    let mut lock = Lockfile::new();
    let n = resolution.packages.len();
    let ghost pairs = resolution.packages.pairs();
    assert(lock_view(lock.packages@) =~= locked(pairs.take(0), resolution.packages@));
    let mut i: usize = 0;
    while i < n
        invariant
            n == pairs.len(),
            pairs == resolution.packages.pairs(),
            i <= n,
            lock.lockfile_version == crate::lockfile::LOCKFILE_VERSION,
            lock.generated_by@ == crate::lockfile::GENERATED_BY@,
            lock_view(lock.packages@) == locked(pairs.take(i as int), resolution.packages@),
        decreases n - i,
    {
        let name = resolution.packages.key_at(i);
        let r = resolution.packages.value_at(i);
        let entry = PackageLock {
            resolved: r.info.dist.tarball.clone(),
            integrity: copy_opt(&r.info.dist.integrity),
            dependencies: crate::linker::resolved_deps(&r.info.dependencies, resolution),
        };
        assert(lock_model(entry) == entry_of(*r, resolution.packages@));
        let ghost before = lock.packages@;
        lock.insert(name.as_str(), r.info.version.as_str(), entry);
        proof {
            assert(pairs.take(i + 1).drop_last() =~= pairs.take(i as int));
            assert(pairs.take(i + 1).last() == pairs[i as int]);
            assert(lock_view(lock.packages@) =~= lock_view(before).insert(
                lock_key(name@, r.info.version@),
                entry_of(*r, resolution.packages@),
            ));
        }
        i = i + 1;
    }
    assert(pairs.take(n as int) =~= pairs);
    lock
}

// ---------------------------------------------------------------------------
// Installing from the lockfile
// ---------------------------------------------------------------------------

/// The package that a lockfile entry stands for: the name and version of
/// its key (split at the last `@`) and its parsed tarball URL; none when
/// either fails.
pub open spec fn lock_item(key: Seq<char>, p: PackageLock) -> Option<InfoModel> {
    match rsplit_once(key, '@') {
        None => None,
        Some((name, version)) => match url_parsed(p.resolved@) {
            None => None,
            Some(u) => Some(
                InfoModel {
                    name,
                    version,
                    tarball: u,
                    integrity: opt_view(p.integrity),
                    shasum: None,
                    dependencies: Seq::empty(),
                },
            ),
        },
    }
}

pub open spec fn lit_malformed_key() -> Seq<char> {
    "malformed lockfile key `"@
}

/// The packages to download for a lockfile, in key order. Fails on the
/// first entry whose key has no `@` (`Other`) or whose URL does not parse
/// (`Url`).
pub fn lock_items(lock: &Lockfile) -> (r: Result<Vec<VersionInfo>>)
    ensures
        r is Ok <==> forall|i: int|
            0 <= i < lock.packages.pairs().len() ==> #[trigger] lock_item(
                lock.packages.pairs()[i].0@,
                lock.packages.pairs()[i].1,
            ) is Some,
        r matches Ok(items) ==> items@.len() == lock.packages.pairs().len() && forall|i: int|
            0 <= i < items@.len() ==> Some((#[trigger] items@[i])@) == lock_item(
                lock.packages.pairs()[i].0@,
                lock.packages.pairs()[i].1,
            ),
        r matches Err(e) ==> exists|i: int|
            0 <= i < lock.packages.pairs().len() && #[trigger] lock_item(
                lock.packages.pairs()[i].0@,
                lock.packages.pairs()[i].1,
            ) is None && (forall|j: int|
                0 <= j < i ==> lock_item(
                    lock.packages.pairs()[j].0@,
                    lock.packages.pairs()[j].1,
                ) is Some) && if rsplit_once(lock.packages.pairs()[i].0@, '@') is None {
                e matches GurokuError::Other(m) && m@ == lit_malformed_key()
                    + lock.packages.pairs()[i].0@ + "`"@
            } else {
                e is Url
            },
{
    proof {
        reveal_strlit("malformed lockfile key `");
        reveal_strlit("`");
    }
    let n = lock.packages.len();
    let ghost pairs = lock.packages.pairs();
    let mut items: Vec<VersionInfo> = Vec::new();
    let mut i: usize = 0;
    while i < n
        invariant
            n == pairs.len(),
            pairs == lock.packages.pairs(),
            i <= n,
            items@.len() == i,
            forall|j: int| 0 <= j < i ==> #[trigger] lock_item(pairs[j].0@, pairs[j].1) is Some,
            forall|j: int|
                0 <= j < i ==> Some((#[trigger] items@[j])@) == lock_item(pairs[j].0@, pairs[j].1),
        decreases n - i,
    {
        let key = lock.packages.key_at(i);
        let entry = lock.packages.value_at(i);
        let (name, version) = match rsplit_once_char(key.as_str(), '@') {
            Some(p) => p,
            None => {
                let m = concat3("malformed lockfile key `", key.as_str(), "`");
                assert(lock_item(pairs[i as int].0@, pairs[i as int].1) is None);
                return Err(GurokuError::Other(m));
            },
        };
        let url = match url_parse(entry.resolved.as_str()) {
            Ok(u) => u,
            Err(detail) => {
                assert(lock_item(pairs[i as int].0@, pairs[i as int].1) is None);
                return Err(GurokuError::Url(detail));
            },
        };
        let info = VersionInfo {
            name,
            version,
            dist: Dist { tarball: url, integrity: copy_opt(&entry.integrity), shasum: None },
            dependencies: StrMap::new(),
        };
        assert(info@.dependencies =~= Seq::<(Seq<char>, Seq<char>)>::empty());
        assert(Some(info@) == lock_item(pairs[i as int].0@, pairs[i as int].1));
        items.push(info);
        i = i + 1;
    }
    Ok(items)
}

// ---------------------------------------------------------------------------
// Collecting downloads
// ---------------------------------------------------------------------------

/// The messages of the failed downloads, in order.
pub open spec fn failures(rs: Seq<core::result::Result<(String, String), String>>) -> Seq<Seq<char>>
    decreases rs.len(),
{
    if rs.len() == 0 {
        Seq::empty()
    } else {
        match rs.last() {
            Err(m) => failures(rs.drop_last()).push(m@),
            Ok(_) => failures(rs.drop_last()),
        }
    }
}

/// Name to store path of the successful downloads; a later download of a
/// name replaces an earlier one.
pub open spec fn fetched(rs: Seq<core::result::Result<(String, String), String>>) -> Map<Seq<char>, Seq<char>>
    decreases rs.len(),
{
    if rs.len() == 0 {
        Map::empty()
    } else {
        match rs.last() {
            Ok((name, path)) => fetched(rs.drop_last()).insert(name@, path@),
            Err(_) => fetched(rs.drop_last()),
        }
    }
}

/// Parts joined by a separator.
pub open spec fn join_with(parts: Seq<Seq<char>>, sep: Seq<char>) -> Seq<char>
    decreases parts.len(),
{
    if parts.len() == 0 {
        Seq::empty()
    } else if parts.len() == 1 {
        parts[0]
    } else {
        join_with(parts.drop_last(), sep) + sep + parts.last()
    }
}

pub open spec fn lit_failed_download() -> Seq<char> {
    " package(s) failed to download: "@
}

/// The store paths of the downloaded packages, or, when any download
/// failed, one `Other` error that counts and lists the failures.
pub fn collect_downloads(results: &Vec<core::result::Result<(String, String), String>>) -> (r: Result<StrMap<String>>)
    ensures
        failures(results@).len() == 0 ==> (r matches Ok(m) && text_map(m@) == fetched(results@)),
        failures(results@).len() > 0 ==> (r matches Err(GurokuError::Other(msg)) && msg@
            == crate::text::dec(failures(results@).len()) + lit_failed_download() + join_with(
            failures(results@),
            "; "@,
        )),
{
    proof {
        reveal_strlit(" package(s) failed to download: ");
        reveal_strlit("; ");
    }
    let n = results.len();
    let mut paths: StrMap<String> = StrMap::new();
    let mut count: u64 = 0;
    let mut listed = String::new();
    let mut i: usize = 0;
    assert(text_map(paths@) =~= fetched(results@.take(0)));
    while i < n
        invariant
            n == results@.len(),
            i <= n,
            count == failures(results@.take(i as int)).len(),
            count <= i,
            listed@ == join_with(failures(results@.take(i as int)), "; "@),
            text_map(paths@) == fetched(results@.take(i as int)),
        decreases n - i,
    {
        proof {
            assert(results@.take(i + 1).drop_last() =~= results@.take(i as int));
            assert(results@.take(i + 1).last() == results@[i as int]);
        }
        match &results[i] {
            Ok((name, path)) => {
                let ghost before = paths@;
                paths.insert(name.clone(), path.clone());
                assert(text_map(paths@) =~= text_map(before).insert(name@, path@));
            },
            Err(m) => {
                if count > 0 {
                    listed = concat2(listed.as_str(), "; ");
                }
                listed = concat2(listed.as_str(), m.as_str());
                proof {
                    let fs = failures(results@.take(i + 1));
                    if count == 0 {
                        assert(fs =~= seq![m@]);
                    } else {
                        assert(fs.drop_last() == failures(results@.take(i as int)));
                    }
                }
                count = count + 1;
            },
        }
        i = i + 1;
    }
    assert(results@.take(n as int) =~= results@);
    if count > 0 {
        let num = crate::text::u64_to_string(count);
        let msg = concat3(num.as_str(), " package(s) failed to download: ", listed.as_str());
        return Err(GurokuError::Other(msg));
    }
    Ok(paths)
}

/// Name to store path of the downloads, or the first download's error (the
/// lockfile install stops at the first failure).
pub fn collect_downloads_strict(results: Vec<Result<(String, String)>>) -> (r: Result<StrMap<String>>)
    ensures
        (forall|i: int| 0 <= i < results@.len() ==> #[trigger] results@[i] is Ok) ==> (r matches Ok(
            m,
        ) && text_map(m@) == fetched_ok(results@)),
        r matches Err(e) ==> exists|i: int|
            0 <= i < results@.len() && #[trigger] results@[i] == Err::<(String, String), GurokuError>(e)
                && (forall|j: int| 0 <= j < i ==> results@[j] is Ok),
        r is Err <==> exists|i: int| 0 <= i < results@.len() && #[trigger] results@[i] is Err,
{
    let ghost all = results@;
    let mut rest = results;
    let total = rest.len();
    let mut paths: StrMap<String> = StrMap::new();
    let mut i: usize = 0;
    assert(text_map(paths@) =~= fetched_ok(all.take(0)));
    while rest.len() > 0
        invariant
            i <= all.len(),
            all.len() == total,
            all == results@,
            rest@ == all.skip(i as int),
            forall|j: int| 0 <= j < i ==> #[trigger] all[j] is Ok,
            text_map(paths@) == fetched_ok(all.take(i as int)),
        decreases rest.len(),
    {
        assert(rest@.len() == all.len() - i);
        let r = rest.remove(0);
        assert(r == all[i as int]);
        proof {
            assert(all.take(i + 1).drop_last() =~= all.take(i as int));
            assert(all.take(i + 1).last() == all[i as int]);
        }
        match r {
            Ok((name, path)) => {
                let ghost before = paths@;
                let ghost key = name@;
                let ghost val = path@;
                paths.insert(name, path);
                assert(text_map(paths@) =~= text_map(before).insert(key, val));
            },
            Err(e) => {
                assert(all[i as int] == Err::<(String, String), GurokuError>(e));
                return Err(e);
            },
        }
        i = i + 1;
        assert(rest@ =~= all.skip(i as int));
    }
    assert(i == all.len());
    assert(all.take(i as int) =~= all);
    Ok(paths)
}

/// Name to store path of successful downloads, later ones replacing
/// earlier ones.
pub open spec fn fetched_ok(rs: Seq<Result<(String, String)>>) -> Map<Seq<char>, Seq<char>>
    decreases rs.len(),
{
    if rs.len() == 0 {
        Map::empty()
    } else {
        match rs.last() {
            Ok((name, path)) => fetched_ok(rs.drop_last()).insert(name@, path@),
            Err(_) => fetched_ok(rs.drop_last()),
        }
    }
}

// ---------------------------------------------------------------------------
// What `install` does
// ---------------------------------------------------------------------------

/// What an install does once the manifest (and lockfile) are read.
#[derive(Debug)]
pub enum InstallMode {
    /// No dependencies are declared.
    NothingToDo,
    /// `--frozen-lockfile`: install exactly what the lockfile lists.
    FromLock,
    /// Resolve afresh, install, and write the lockfile.
    Resolve,
}

/// Nothing to do without roots; with `--frozen-lockfile`, the lockfile must
/// exist and cover every root (else `LockfileOutOfDate`); otherwise resolve.
pub fn install_mode(roots: &Vec<(String, String)>, frozen_lockfile: bool, lock: Option<&Lockfile>) -> (r: Result<InstallMode>)
    ensures
        roots@.len() == 0 ==> r matches Ok(InstallMode::NothingToDo),
        roots@.len() > 0 && !frozen_lockfile ==> r matches Ok(InstallMode::Resolve),
        roots@.len() > 0 && frozen_lockfile ==> match lock {
            None => r matches Err(GurokuError::LockfileOutOfDate),
            Some(l) => if lock_covers_spec(l.packages@.dom(), crate::manifest::text_pairs(roots@)) {
                r matches Ok(InstallMode::FromLock)
            } else {
                r matches Err(GurokuError::LockfileOutOfDate)
            },
        },
{
    if roots.len() == 0 {
        return Ok(InstallMode::NothingToDo);
    }
    if frozen_lockfile {
        match lock {
            None => Err(GurokuError::LockfileOutOfDate),
            Some(l) => {
                if lock_covers(l, roots) {
                    Ok(InstallMode::FromLock)
                } else {
                    Err(GurokuError::LockfileOutOfDate)
                }
            },
        }
    } else {
        Ok(InstallMode::Resolve)
    }
}

// ---------------------------------------------------------------------------
// `add`
// ---------------------------------------------------------------------------

pub open spec fn parsed_specs(inputs: Seq<String>) -> Seq<(Seq<char>, Seq<char>)> {
    inputs.map_values(|s: String| parse_spec_spec(s@))
}

/// The `(name, spec)` entries that `add` puts into `dependencies`, one per
/// command-line package spec.
pub fn add_entries(packages: &Vec<String>) -> (r: Vec<(String, String)>)
    ensures
        crate::manifest::text_pairs(r@) == parsed_specs(packages@),
{
    let n = packages.len();
    let mut out: Vec<(String, String)> = Vec::new();
    let mut i: usize = 0;
    while i < n
        invariant
            n == packages@.len(),
            i <= n,
            crate::manifest::text_pairs(out@) == parsed_specs(packages@.take(i as int)),
        decreases n - i,
    {
        let e = parse_spec(packages[i].as_str());
        let ghost prev = crate::manifest::text_pairs(out@);
        let ghost ev = (e.0@, e.1@);
        out.push(e);
        assert(crate::manifest::text_pairs(out@) =~= prev.push(ev));
        assert(parsed_specs(packages@.take(i + 1)) =~= parsed_specs(packages@.take(i as int)).push(
            parse_spec_spec(packages@[i as int]@),
        ));
        i = i + 1;
    }
    assert(packages@.take(n as int) =~= packages@);
    out
}

/// The spec that pins an added package to what was installed: `^<version>`.
pub open spec fn caret(version: Seq<char>) -> Seq<char> {
    seq!['^'] + version
}

/// `dependencies` after pinning each added package that the resolution
/// holds, in order.
pub open spec fn pinned(
    deps: Map<Seq<char>, Seq<char>>,
    added: Seq<(Seq<char>, Seq<char>)>,
    res: Map<Seq<char>, Resolved>,
) -> Map<Seq<char>, Seq<char>>
    decreases added.len(),
{
    if added.len() == 0 {
        deps
    } else {
        let prev = pinned(deps, added.drop_last(), res);
        let name = added.last().0;
        if res.contains_key(name) {
            prev.insert(name, caret(res[name].info.version@))
        } else {
            prev
        }
    }
}

/// After `add` has installed, record `^<installed version>` for each added
/// package in `dependencies`.
pub fn pin_added(manifest: &mut crate::manifest::Manifest, added: &Vec<(String, String)>, resolution: &Resolution)
    ensures
        text_map(final(manifest).dependencies@) == pinned(
            text_map(old(manifest).dependencies@),
            crate::manifest::text_pairs(added@),
            resolution.packages@,
        ),
        final(manifest).dev_dependencies@ == old(manifest).dev_dependencies@,
        final(manifest).optional_dependencies@ == old(manifest).optional_dependencies@,
        final(manifest).peer_dependencies@ == old(manifest).peer_dependencies@,
{
    proof {
        reveal_strlit("^");
    }
    let n = added.len();
    let ghost ap = crate::manifest::text_pairs(added@);
    let mut i: usize = 0;
    while i < n
        invariant
            n == added@.len(),
            ap == crate::manifest::text_pairs(added@),
            i <= n,
            text_map(manifest.dependencies@) == pinned(
                text_map(old(manifest).dependencies@),
                ap.take(i as int),
                resolution.packages@,
            ),
            manifest.dev_dependencies@ == old(manifest).dev_dependencies@,
            manifest.optional_dependencies@ == old(manifest).optional_dependencies@,
            manifest.peer_dependencies@ == old(manifest).peer_dependencies@,
        decreases n - i,
    {
        proof {
            assert(ap.take(i + 1).drop_last() =~= ap.take(i as int));
            assert(ap.take(i + 1).last() == ap[i as int]);
        }
        let name = &added[i].0;
        assert(ap[i as int].0 == name@);
        match resolution.packages.get(name.as_str()) {
            Some(r) => {
                let spec = concat2("^", r.info.version.as_str());
                proof {
                    reveal_strlit("^");
                    assert("^"@ =~= seq!['^']);
                }
                assert(spec@ == caret(resolution.packages@[name@].info.version@));
                manifest.add_dependency(name.as_str(), spec.as_str());
            },
            None => {},
        }
        i = i + 1;
    }
    assert(ap.take(n as int) =~= ap);
}

// ---------------------------------------------------------------------------
// `run` and `exec`
// ---------------------------------------------------------------------------

/// The body of the script `name`, or `NoSuchScript`.
pub fn script_body(manifest: &crate::manifest::Manifest, name: &str) -> (r: Result<String>)
    ensures
        manifest.scripts@.contains_key(name@) ==> (r matches Ok(b) && b@ == manifest.scripts@[name@]@),
        !manifest.scripts@.contains_key(name@) ==> (r matches Err(GurokuError::NoSuchScript { name: n })
            && n@ == name@),
{
    match manifest.scripts.get(name) {
        Some(b) => Ok(b.clone()),
        None => Err(GurokuError::NoSuchScript { name: name.to_owned() }),
    }
}

/// The lines that `guroku run` prints without a script name.
pub open spec fn listing(pairs: Seq<(Seq<char>, Seq<char>)>) -> Seq<Seq<char>>
    decreases pairs.len(),
{
    if pairs.len() == 0 {
        seq!["available scripts:"@]
    } else {
        listing(pairs.drop_last()).push("  "@ + pairs.last().0 + "\n    "@ + pairs.last().1)
    }
}

pub open spec fn script_listing_spec(pairs: Seq<(Seq<char>, Seq<char>)>) -> Seq<Seq<char>> {
    if pairs.len() == 0 {
        seq!["no scripts defined in package.json"@]
    } else {
        listing(pairs)
    }
}

/// What `guroku run` prints without a script name: each script and its
/// body, or that there are none.
pub fn script_listing(manifest: &crate::manifest::Manifest) -> (r: Vec<String>)
    ensures
        r@.map_values(|s: String| s@) == script_listing_spec(
            crate::manifest::text_pairs(manifest.scripts.pairs()),
        ),
{
    let n = manifest.scripts.len();
    let ghost ps = crate::manifest::text_pairs(manifest.scripts.pairs());
    let mut out: Vec<String> = Vec::new();
    if n == 0 {
        out.push("no scripts defined in package.json".to_owned());
        assert(out@.map_values(|s: String| s@) =~= script_listing_spec(ps));
        return out;
    }
    out.push("available scripts:".to_owned());
    assert(out@.map_values(|s: String| s@) =~= listing(ps.take(0)));
    let mut i: usize = 0;
    while i < n
        invariant
            n == manifest.scripts.pairs().len(),
            ps == crate::manifest::text_pairs(manifest.scripts.pairs()),
            i <= n,
            out@.map_values(|s: String| s@) == listing(ps.take(i as int)),
        decreases n - i,
    {
        proof {
            assert(ps.take(i + 1).drop_last() =~= ps.take(i as int));
            assert(ps.take(i + 1).last() == ps[i as int]);
        }
        let k = manifest.scripts.key_at(i);
        let v = manifest.scripts.value_at(i);
        let a = concat3("  ", k.as_str(), "\n    ");
        let line = concat2(a.as_str(), v.as_str());
        let ghost prev = out@.map_values(|s: String| s@);
        let ghost lv = line@;
        out.push(line);
        assert(out@.map_values(|s: String| s@) =~= prev.push(lv));
        i = i + 1;
    }
    assert(ps.take(n as int) =~= ps);
    out
}

/// A command for `guroku exec`: the program (the package's own binary in
/// `node_modules/.bin` when there is one, else the bare command, looked up
/// on `PATH`), its arguments and directory, and the `PATH` to give it.
#[derive(Debug)]
pub struct ExecPlan {
    pub program: String,
    pub args: Vec<String>,
    pub cwd: String,
    /// `node_modules/.bin` then the current `PATH` entries, when the
    /// directory exists and the entries can be joined; else `PATH` is left
    /// as it is.
    pub path: Option<String>,
}

/// The `PATH` of an `exec`: `bin_dir` then every entry of the current
/// `PATH`, joined by `:`; none when an entry holds a `:`.
pub open spec fn exec_path(bin_dir: Seq<char>, existing: Seq<char>) -> Option<Seq<char>> {
    let entries = seq![bin_dir] + crate::text::split(existing, ':');
    if exists|i: int| 0 <= i < entries.len() && #[trigger] entries[i].contains(':') {
        None
    } else {
        Some(crate::scripts::colon_joined(entries))
    }
}

/// Plan `guroku exec <command> <args>` in `cwd`. `candidate_exists` says
/// whether `node_modules/.bin/<command>` exists, `bin_dir_is_dir` whether
/// `node_modules/.bin` is a directory, and `existing_path` is the current
/// `PATH`.
pub fn exec_plan(
    cwd: &str,
    command: &str,
    args: &Vec<String>,
    candidate_exists: bool,
    bin_dir_is_dir: bool,
    existing_path: &str,
) -> (p: ExecPlan)
    ensures
        ({
            let bin_dir = join_path(join_path(cwd@, "node_modules"@), ".bin"@);
            &&& p.program@ == if candidate_exists {
                join_path(bin_dir, command@)
            } else {
                command@
            }
            &&& crate::git::args_view(p.args@) == crate::git::args_view(args@)
            &&& p.cwd@ == cwd@
            &&& match p.path {
                Some(v) => bin_dir_is_dir && exec_path(bin_dir, existing_path@) == Some(v@),
                None => !bin_dir_is_dir || exec_path(bin_dir, existing_path@) is None,
            }
        }),
{
    let nm = path_join(cwd, "node_modules");
    let bin_dir = path_join(nm.as_str(), ".bin");
    let program = if candidate_exists {
        path_join(bin_dir.as_str(), command)
    } else {
        command.to_owned()
    };
    let mut a: Vec<String> = Vec::new();
    crate::git::append_strings(&mut a, args);
    assert(crate::git::args_view(a@) =~= crate::git::args_view(args@));
    let path = if bin_dir_is_dir {
        joined_path(bin_dir.as_str(), existing_path)
    } else {
        None
    };
    ExecPlan { program, args: a, cwd: cwd.to_owned(), path }
}

fn joined_path(bin_dir: &str, existing: &str) -> (r: Option<String>)
    ensures
        match r {
            Some(v) => exec_path(bin_dir@, existing@) == Some(v@),
            None => exec_path(bin_dir@, existing@) is None,
        },
{
    let parts = split_char(existing, ':');
    let mut entries: Vec<String> = Vec::new();
    entries.push(bin_dir.to_owned());
    assert(crate::git::args_view(parts@) =~= crate::text::split(existing@, ':'));
    crate::git::append_strings(&mut entries, &parts);
    let ghost es = crate::git::args_view(entries@);
    assert(es =~= seq![bin_dir@] + crate::text::split(existing@, ':'));
    let k = entries.len();
    let mut out = String::new();
    let mut t: usize = 0;
    while t < k
        invariant
            k == entries@.len(),
            es == crate::git::args_view(entries@),
            es == seq![bin_dir@] + crate::text::split(existing@, ':'),
            t <= k,
            forall|q: int| 0 <= q < t ==> !(#[trigger] es[q]).contains(':'),
            out@ == crate::scripts::colon_joined(es.take(t as int)),
        decreases k - t,
    {
        if crate::text::contains_char(entries[t].as_str(), ':') {
            assert(es[t as int].contains(':'));
            return None;
        }
        proof {
            assert(es.take(t + 1).drop_last() =~= es.take(t as int));
            assert(es.take(t + 1).last() == entries@[t as int]@);
        }
        if t > 0 {
            crate::text::push_char(&mut out, ':');
        }
        out = concat2(out.as_str(), entries[t].as_str());
        proof {
            if t == 0 {
                assert(es.take(1) =~= seq![es[0]]);
            }
        }
        t = t + 1;
    }
    assert(es.take(k as int) =~= es);
    Some(out)
}

/// How an `exec` process ended.
#[derive(Debug)]
pub enum ExecExit {
    /// The process ran; `code` is its exit code, none when killed by a
    /// signal.
    Exited { success: bool, code: Option<i32> },
    /// The program is neither in `node_modules/.bin` nor on `PATH`.
    NotFound,
    /// It could not be spawned for another reason.
    SpawnFailed(String),
}

/// What an `exec` exit means: success, `ScriptFailed` with the exit code
/// (or -1), `BinNotFound`, or `ScriptSpawnFailed`.
pub fn exec_outcome(command: &str, exit: ExecExit) -> (r: Result<()>)
    ensures
        match exit {
            ExecExit::Exited { success, code } => if success {
                r is Ok
            } else {
                r matches Err(GurokuError::ScriptFailed { script, status }) && script@ == command@
                    && status == match code {
                    Some(c) => c,
                    None => -1i32,
                }
            },
            ExecExit::NotFound => r matches Err(GurokuError::BinNotFound { name }) && name@
                == command@,
            ExecExit::SpawnFailed(d) => r matches Err(GurokuError::ScriptSpawnFailed { script, detail })
                && script@ == command@ && detail@ == d@,
        },
{
    match exit {
        ExecExit::Exited { success, code } => {
            if success {
                Ok(())
            } else {
                let status = match code {
                    Some(c) => c,
                    None => -1,
                };
                Err(GurokuError::ScriptFailed { script: command.to_owned(), status })
            }
        },
        ExecExit::NotFound => Err(GurokuError::BinNotFound { name: command.to_owned() }),
        ExecExit::SpawnFailed(d) => Err(
            GurokuError::ScriptSpawnFailed { script: command.to_owned(), detail: d },
        ),
    }
}

// ---------------------------------------------------------------------------
// Laws
// ---------------------------------------------------------------------------

/// A package name that a lockfile key can stand for: no `@`, or a scoped
/// name (leading `@`).
pub open spec fn keyable_name(name: Seq<char>) -> bool {
    !name.contains('@') || (name.len() > 0 && name[0] == '@')
}

/// Whether a resolution has a package under `name`.
pub open spec fn resolves(pairs: Seq<(String, Resolved)>, name: Seq<char>) -> bool {
    exists|j: int| 0 <= j < pairs.len() && #[trigger] pairs[j].0@ == name
}

/// The key of a package stands for its name, when its version holds no
/// `@`.
pub proof fn lemma_key_covers_own(name: Seq<char>, version: Seq<char>)
    requires
        !version.contains('@'),
    ensures
        key_covers(lock_key(name, version), name),
{
    crate::lockfile::lemma_lock_key_split(name, version);
}

/// Every resolved package has its key in the lockfile written from the
/// resolution.
proof fn lemma_locked_has_key(pairs: Seq<(String, Resolved)>, res: Map<Seq<char>, Resolved>, j: int)
    requires
        0 <= j < pairs.len(),
    ensures
        locked(pairs, res).contains_key(lock_key(pairs[j].0@, pairs[j].1.info.version@)),
    decreases pairs.len(),
{
    if j < pairs.len() - 1 {
        lemma_locked_has_key(pairs.drop_last(), res, j);
        assert(pairs.drop_last()[j] == pairs[j]);
    }
}

/// A download item read from a lockfile entry is the entry itself: it
/// carries the entry's integrity string unchanged (so the tarball is
/// checked against what was locked), the tarball URL parsed from its
/// `resolved` field, and the name and version whose `<name>@<version>` is
/// the entry's key. An entry whose key has an `@` and whose URL parses
/// always gives an item.
pub proof fn lemma_lock_item_is_entry(key: Seq<char>, p: PackageLock)
    ensures
        lock_item(key, p) matches Some(info) ==> {
            &&& info.integrity == match p.integrity {
                Some(i) => Some(i@),
                None => None::<Seq<char>>,
            }
            &&& info.shasum is None
            &&& url_parsed(p.resolved@) == Some(info.tarball)
            &&& info.name + seq!['@'] + info.version == key
            &&& !info.version.contains('@')
            &&& info.dependencies.len() == 0
        },
        (key.contains('@') && url_parsed(p.resolved@) is Some) ==> lock_item(key, p) is Some,
{
    crate::text::lemma_rfind_props(key, '@');
    if let Some(i) = crate::text::rfind(key, '@') {
        assert(key.take(i) + seq!['@'] + key.skip(i + 1) =~= key);
        let v = key.skip(i + 1);
        assert forall|j: int| 0 <= j < v.len() implies #[trigger] v[j] != '@' by {
            assert(v[j] == key[i + 1 + j]);
        }
    } else if key.contains('@') {
        let j = choose|j: int| 0 <= j < key.len() && key[j] == '@';
        assert(key[j] == '@');
    }
}

/// A lockfile entry records a resolved package: its tarball URL and
/// integrity string unchanged, and as dependencies exactly those of its
/// dependencies that the resolution holds, each with the version resolved
/// for it.
pub open spec fn records(
    e: (Seq<char>, Option<Seq<char>>, Map<Seq<char>, Seq<char>>),
    r: Resolved,
    res: Map<Seq<char>, Resolved>,
) -> bool {
    &&& e.0 == r.info.dist.tarball@
    &&& e.1 == match r.info.dist.integrity {
        Some(s) => Some(s@),
        None => None::<Seq<char>>,
    }
    &&& forall|d: Seq<char>|
        #[trigger] e.2.contains_key(d) <==> (r.info.dependencies@.contains_key(d) && res.contains_key(d))
    &&& forall|d: Seq<char>| #[trigger] e.2.contains_key(d) ==> e.2[d] == res[d].info.version@
}

/// Each package of a resolution is written to the lockfile under
/// `<name>@<version>`, and every entry records a package of the resolution
/// under its key: its own tarball URL and integrity string, and its
/// dependencies at their resolved versions.
pub proof fn lemma_locked_entries(pairs: Seq<(String, Resolved)>, res: Map<Seq<char>, Resolved>)
    ensures
        forall|k: Seq<char>|
            #[trigger] locked(pairs, res).contains_key(k) ==> exists|i: int|
                0 <= i < pairs.len() && lock_key(pairs[i].0@, pairs[i].1.info.version@) == k
                    && #[trigger] records(locked(pairs, res)[k], pairs[i].1, res),
        forall|i: int|
            0 <= i < pairs.len() ==> locked(pairs, res).contains_key(
                lock_key(#[trigger] pairs[i].0@, pairs[i].1.info.version@),
            ),
    decreases pairs.len(),
{
    if pairs.len() > 0 {
        let init = pairs.drop_last();
        lemma_locked_entries(init, res);
        let n = pairs.len() - 1;
        let last = pairs[n];
        let kl = lock_key(last.0@, last.1.info.version@);
        assert(pairs.last() == last);
        assert forall|k: Seq<char>| #[trigger] locked(pairs, res).contains_key(k) implies exists|i: int|
            0 <= i < pairs.len() && lock_key(pairs[i].0@, pairs[i].1.info.version@) == k
                && #[trigger] records(locked(pairs, res)[k], pairs[i].1, res) by {
            if k == kl {
                assert(locked(pairs, res)[k] == entry_of(last.1, res));
                assert(records(locked(pairs, res)[k], pairs[n].1, res));
            } else {
                assert(locked(init, res).contains_key(k));
                let i = choose|i: int|
                    0 <= i < init.len() && lock_key(init[i].0@, init[i].1.info.version@) == k
                        && #[trigger] records(locked(init, res)[k], init[i].1, res);
                assert(pairs[i] == init[i]);
                assert(locked(pairs, res)[k] == locked(init, res)[k]);
                assert(records(locked(pairs, res)[k], pairs[i].1, res));
            }
        }
        assert forall|i: int| 0 <= i < pairs.len() implies locked(pairs, res).contains_key(
            lock_key(#[trigger] pairs[i].0@, pairs[i].1.info.version@),
        ) by {
            if i < n {
                assert(pairs[i] == init[i]);
                assert(locked(init, res).contains_key(lock_key(init[i].0@, init[i].1.info.version@)));
            }
        }
    }
}

/// A lockfile written from a resolution passes the `--frozen-lockfile`
/// check for roots that the resolution resolved (versions hold no `@`).
pub proof fn lemma_written_lock_covers(
    pairs: Seq<(String, Resolved)>,
    res: Map<Seq<char>, Resolved>,
    roots: Seq<(Seq<char>, Seq<char>)>,
)
    requires
        forall|j: int| 0 <= j < pairs.len() ==> !(#[trigger] pairs[j].1.info.version@).contains('@'),
        forall|i: int| 0 <= i < roots.len() ==> #[trigger] resolves(pairs, roots[i].0),
    ensures
        lock_covers_spec(locked(pairs, res).dom(), roots),
{
    assert forall|i: int| 0 <= i < roots.len() implies #[trigger] covered(locked(pairs, res).dom(), roots[i].0) by {
        assert(resolves(pairs, roots[i].0));
        let j = choose|j: int| 0 <= j < pairs.len() && #[trigger] pairs[j].0@ == roots[i].0;
        let k = lock_key(pairs[j].0@, pairs[j].1.info.version@);
        lemma_locked_has_key(pairs, res, j);
        lemma_key_covers_own(roots[i].0, pairs[j].1.info.version@);
        assert(locked(pairs, res).dom().contains(k));
    }
}

/// `parse_spec` reads back `<name>@<spec>` for a keyable name (the version
/// spec may hold `@`, as `npm:` aliases do).
pub proof fn lemma_parse_spec_join(name: Seq<char>, spec: Seq<char>)
    requires
        keyable_name(name),
        name.len() > 0,
        name[0] == '@' ==> !name.skip(1).contains('@'),
    ensures
        parse_spec_spec(name + seq!['@'] + spec) == (name, spec),
{
    let s = name + seq!['@'] + spec;
    if name[0] == '@' {
        let rest = s.skip(1);
        let n1 = name.len() - 1;
        assert(rest[n1] == '@');
        assert forall|j: int| 0 <= j < n1 implies rest[j] != '@' by {
            assert(rest[j] == name.skip(1)[j]);
            if name.skip(1)[j] == '@' {
                assert(name.skip(1).contains('@'));
            }
        }
        crate::text::lemma_find_is(rest, '@', n1);
        assert(seq!['@'] + rest.take(n1) =~= name);
        assert(rest.skip(n1 + 1) =~= spec);
    } else {
        assert(s[name.len() as int] == '@');
        assert forall|j: int| 0 <= j < name.len() implies s[j] != '@' by {
            assert(s[j] == name[j]);
            if name[j] == '@' {
                assert(name.contains('@'));
            }
        }
        crate::text::lemma_find_is(s, '@', name.len() as int);
        assert(s.take(name.len() as int) =~= name);
        assert(s.skip(name.len() as int + 1) =~= spec);
    }
}

} // verus!
