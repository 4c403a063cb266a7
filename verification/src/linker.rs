//! What goes into `node_modules`: one directory per package, copied from
//! its source (a store entry, or the working tree of a local dependency),
//! with the exact versions of its dependencies and its `bin` shims. The
//! copying itself is the caller's.
use crate::lockfile::{Lockfile, PackageLock};
use crate::manifest::text_pairs;
use crate::paths::{join_path, path_join};
use crate::resolver::{Resolution, Resolved};
use crate::strmap::{text_map, StrMap};
use crate::text::{rsplit_once, rsplit_once_char};
use vstd::prelude::*;

verus! {

/// A package to lay out under `node_modules/<name>`.
#[derive(Debug)]
pub struct LinkedPackage {
    /// The directory name under `node_modules` (for an alias, the name the
    /// user declared).
    pub name: String,
    pub version: String,
    /// Where its files come from.
    pub source_dir: String,
    /// Its dependencies that are part of the install, with their versions.
    pub dependencies: StrMap<String>,
    /// Its `bin` entries: command name and script path.
    pub bin_entries: Vec<(String, String)>,
}

/// The value of a `LinkedPackage`.
pub struct LinkModel {
    pub name: Seq<char>,
    pub version: Seq<char>,
    pub source_dir: Seq<char>,
    pub dependencies: Map<Seq<char>, Seq<char>>,
    pub bin_entries: Seq<(Seq<char>, Seq<char>)>,
}

impl View for LinkedPackage {
    type V = LinkModel;

    open spec fn view(&self) -> LinkModel {
        LinkModel {
            name: self.name@,
            version: self.version@,
            source_dir: self.source_dir@,
            dependencies: text_map(self.dependencies@),
            bin_entries: text_pairs(self.bin_entries@),
        }
    }
}

pub open spec fn links_view(v: Seq<LinkedPackage>) -> Seq<LinkModel> {
    v.map_values(|p: LinkedPackage| p@)
}

/// The directory a package is copied to: `node_modules/<name>`.
pub fn link_target(node_modules: &str, name: &str) -> (r: String)
    ensures
        r@ == join_path(node_modules@, name@),
{
    path_join(node_modules, name)
}

// ---------------------------------------------------------------------------
// From a resolution
// ---------------------------------------------------------------------------

/// Where a resolved package's files come from: its local source (file:/git:
/// dependencies are copied straight from the working tree), else its store
/// path; none when it has neither.
pub open spec fn source_of(name: Seq<char>, r: Resolved, cas: Map<Seq<char>, String>) -> Option<Seq<char>> {
    match r.local_source {
        Some(p) => Some(p@),
        None => if cas.contains_key(name) {
            Some(cas[name]@)
        } else {
            None
        },
    }
}

/// The dependencies of a package that are part of the resolution, each with
/// its resolved version.
pub open spec fn linked_deps(deps: Map<Seq<char>, String>, res: Map<Seq<char>, Resolved>) -> Map<Seq<char>, Seq<char>> {
    Map::new(|d: Seq<char>| deps.contains_key(d) && res.contains_key(d), |d: Seq<char>| res[d].info.version@)
}

/// The source directories of the packages of a resolution that have one, in
/// order.
pub open spec fn res_sources(pairs: Seq<(String, Resolved)>, cas: Map<Seq<char>, String>) -> Seq<Seq<char>>
    decreases pairs.len(),
{
    if pairs.len() == 0 {
        Seq::empty()
    } else {
        let (name, r) = pairs.last();
        match source_of(name@, r, cas) {
            Some(dir) => res_sources(pairs.drop_last(), cas).push(dir),
            None => res_sources(pairs.drop_last(), cas),
        }
    }
}

/// The packages to link for a resolution, in order: those with a source
/// directory, under their local name, with the `bin` entries read from that
/// directory (none when it has no readable manifest).
pub open spec fn res_links(
    pairs: Seq<(String, Resolved)>,
    res: Map<Seq<char>, Resolved>,
    cas: Map<Seq<char>, String>,
    bins: Map<Seq<char>, Vec<(String, String)>>,
) -> Seq<LinkModel>
    decreases pairs.len(),
{
    if pairs.len() == 0 {
        Seq::empty()
    } else {
        let (name, r) = pairs.last();
        let prev = res_links(pairs.drop_last(), res, cas, bins);
        match source_of(name@, r, cas) {
            Some(dir) => prev.push(
                LinkModel {
                    name: name@,
                    version: r.info.version@,
                    source_dir: dir,
                    dependencies: linked_deps(r.info.dependencies@, res),
                    bin_entries: if bins.contains_key(dir) {
                        text_pairs(bins[dir]@)
                    } else {
                        Seq::empty()
                    },
                },
            ),
            None => prev,
        }
    }
}

fn source_dir_of(name: &String, r: &Resolved, cas_paths: &StrMap<String>) -> (d: Option<String>)
    ensures
        match d {
            Some(s) => source_of(name@, *r, cas_paths@) == Some(s@),
            None => source_of(name@, *r, cas_paths@) is None,
        },
{
    match &r.local_source {
        Some(p) => Some(p.clone()),
        None => match cas_paths.get(name.as_str()) {
            Some(p) => Some(p.clone()),
            None => None,
        },
    }
}

/// The source directories whose manifests give the `bin` entries of
/// `into_linked_packages`.
pub fn link_sources(resolution: &Resolution, cas_paths: &StrMap<String>) -> (r: Vec<String>)
    ensures
        r@.map_values(|s: String| s@) == res_sources(resolution.packages.pairs(), cas_paths@),
{
    let n = resolution.packages.len();
    let ghost pairs = resolution.packages.pairs();
    let mut out: Vec<String> = Vec::new();
    let mut i: usize = 0;
    assert(out@.map_values(|s: String| s@) =~= res_sources(pairs.take(0), cas_paths@));
    while i < n
        invariant
            n == pairs.len(),
            pairs == resolution.packages.pairs(),
            i <= n,
            out@.map_values(|s: String| s@) == res_sources(pairs.take(i as int), cas_paths@),
        decreases n - i,
    {
        proof {
            assert(pairs.take(i + 1).drop_last() =~= pairs.take(i as int));
            assert(pairs.take(i + 1).last() == pairs[i as int]);
        }
        let name = resolution.packages.key_at(i);
        let r = resolution.packages.value_at(i);
        match source_dir_of(name, r, cas_paths) {
            Some(dir) => {
                let ghost prev = out@.map_values(|s: String| s@);
                let ghost d = dir@;
                out.push(dir);
                assert(out@.map_values(|s: String| s@) =~= prev.push(d));
            },
            None => {},
        }
        i = i + 1;
    }
    assert(pairs.take(n as int) =~= pairs);
    out
}

fn copy_pairs(v: &Vec<(String, String)>) -> (r: Vec<(String, String)>)
    ensures
        text_pairs(r@) == text_pairs(v@),
{
    let n = v.len();
    let mut out: Vec<(String, String)> = Vec::new();
    let mut i: usize = 0;
    while i < n
        invariant
            n == v@.len(),
            i <= n,
            text_pairs(out@) == text_pairs(v@.take(i as int)),
        decreases n - i,
    {
        let a = v[i].0.clone();
        let b = v[i].1.clone();
        let ghost prev = text_pairs(out@);
        out.push((a, b));
        assert(text_pairs(out@) =~= prev.push((v@[i as int].0@, v@[i as int].1@)));
        assert(text_pairs(v@.take(i + 1)) =~= text_pairs(v@.take(i as int)).push(
            (v@[i as int].0@, v@[i as int].1@),
        ));
        i = i + 1;
    }
    assert(v@.take(n as int) =~= v@);
    out
}

/// The dependencies of `deps` that are part of the resolution, with their
/// resolved versions.
pub(crate) fn resolved_deps(deps: &StrMap<String>, resolution: &Resolution) -> (r: StrMap<String>)
    ensures
        text_map(r@) == linked_deps(deps@, resolution.packages@),
{
    let n = deps.len();
    let ghost ks = deps.key_seq();
    proof {
        deps.lemma_view();
        crate::strmap::lemma_map_of_sorted(deps.pairs());
    }
    let mut out: StrMap<String> = StrMap::new();
    let mut i: usize = 0;
    while i < n
        invariant
            n == deps.pairs().len(),
            ks == deps.key_seq(),
            i <= n,
            text_map(out@) == Map::new(
                |d: Seq<char>| ks.take(i as int).contains(d) && resolution.packages@.contains_key(d),
                |d: Seq<char>| resolution.packages@[d].info.version@,
            ),
        decreases n - i,
    {
        let name = deps.key_at(i);
        assert(ks[i as int] == name@);
        let ghost before = text_map(out@);
        match resolution.packages.get(name.as_str()) {
            Some(rd) => {
                let ghost bm = out@;
                out.insert(name.clone(), rd.info.version.clone());
                assert(text_map(out@) =~= text_map(bm).insert(name@, rd.info.version@));
                assert(resolution.packages@[name@] == *rd);
            },
            None => {},
        }
        assert(resolution.packages@.contains_key(name@) ==> text_map(out@) == before.insert(
            name@,
            resolution.packages@[name@].info.version@,
        ));
        assert(!resolution.packages@.contains_key(name@) ==> text_map(out@) == before);
        assert(ks.take(i + 1) =~= ks.take(i as int).push(name@));
        assert forall|d: Seq<char>| ks.take(i + 1).contains(d) <==> (ks.take(i as int).contains(d)
            || d == name@) by {
            if ks.take(i + 1).contains(d) {
                let q = choose|q: int| 0 <= q < i + 1 && #[trigger] ks.take(i + 1)[q] == d;
                if q < i {
                    assert(ks.take(i as int)[q] == d);
                }
            }
            if ks.take(i as int).contains(d) {
                let q = choose|q: int| 0 <= q < i && #[trigger] ks.take(i as int)[q] == d;
                assert(ks.take(i + 1)[q] == d);
            }
            if d == name@ {
                assert(ks.take(i + 1)[i as int] == d);
            }
        }
        let ghost want = Map::new(
            |d: Seq<char>| ks.take(i + 1).contains(d) && resolution.packages@.contains_key(d),
            |d: Seq<char>| resolution.packages@[d].info.version@,
        );
        assert forall|d: Seq<char>| #[trigger] text_map(out@).contains_key(d) <==> want.contains_key(d) by {
            if d != name@ {
                assert(text_map(out@).contains_key(d) == before.contains_key(d));
                assert(ks.take(i + 1).contains(d) == ks.take(i as int).contains(d));
            } else {
                assert(ks.take(i + 1)[i as int] == d);
                assert(ks.take(i + 1).contains(d));
            }
        }
        assert forall|d: Seq<char>| #[trigger] text_map(out@).contains_key(d) implies text_map(out@)[d] == want[d] by {
            if d != name@ {
                assert(before.contains_key(d));
            }
        }
        assert(text_map(out@) =~= want);
        i = i + 1;
    }
    assert(ks.take(n as int) =~= ks);
    assert forall|d: Seq<char>| ks.contains(d) <==> deps@.contains_key(d) by {
        if ks.contains(d) {
            let q = choose|q: int| 0 <= q < ks.len() && #[trigger] ks[q] == d;
            assert(deps.pairs()[q].0@ == d);
        }
        if deps@.contains_key(d) {
            let q = choose|q: int| 0 <= q < deps.pairs().len() && (#[trigger] deps.pairs()[q]).0@ == d;
            assert(ks[q] == d);
        }
    }
    assert(text_map(out@) =~= linked_deps(deps@, resolution.packages@));
    out
}

/// The packages to lay out for a resolution. `bins` gives, by source
/// directory, the `bin` entries of the manifests found there; a package
/// whose directory is missing from it has none.
pub fn into_linked_packages(
    resolution: &Resolution,
    cas_paths: &StrMap<String>,
    bins: &StrMap<Vec<(String, String)>>,
) -> (r: Vec<LinkedPackage>)
    ensures
        links_view(r@) == res_links(
            resolution.packages.pairs(),
            resolution.packages@,
            cas_paths@,
            bins@,
        ),
{
    let n = resolution.packages.len();
    let ghost pairs = resolution.packages.pairs();
    let mut out: Vec<LinkedPackage> = Vec::new();
    let mut i: usize = 0;
    assert(links_view(out@) =~= res_links(pairs.take(0), resolution.packages@, cas_paths@, bins@));
    while i < n
        invariant
            n == pairs.len(),
            pairs == resolution.packages.pairs(),
            i <= n,
            links_view(out@) == res_links(
                pairs.take(i as int),
                resolution.packages@,
                cas_paths@,
                bins@,
            ),
        decreases n - i,
    {
        proof {
            assert(pairs.take(i + 1).drop_last() =~= pairs.take(i as int));
            assert(pairs.take(i + 1).last() == pairs[i as int]);
        }
        let name = resolution.packages.key_at(i);
        let r = resolution.packages.value_at(i);
        match source_dir_of(name, r, cas_paths) {
            Some(dir) => {
                let deps = resolved_deps(&r.info.dependencies, resolution);
                let bin_entries = match bins.get(dir.as_str()) {
                    Some(b) => copy_pairs(b),
                    None => Vec::new(),
                };
                assert(bins@.contains_key(dir@) ==> text_pairs(bin_entries@) == text_pairs(
                    bins@[dir@]@,
                ));
                assert(!bins@.contains_key(dir@) ==> text_pairs(bin_entries@) =~= Seq::<
                    (Seq<char>, Seq<char>),
                >::empty());
                let p = LinkedPackage {
                    name: name.clone(),
                    version: r.info.version.clone(),
                    source_dir: dir,
                    dependencies: deps,
                    bin_entries,
                };
                let ghost prev = links_view(out@);
                let ghost pv = p@;
                out.push(p);
                assert(links_view(out@) =~= prev.push(pv));
            },
            None => {},
        }
        i = i + 1;
    }
    assert(pairs.take(n as int) =~= pairs);
    out
}

// ---------------------------------------------------------------------------
// From a lockfile
// ---------------------------------------------------------------------------

/// The packages to link for a lockfile install, in key order: each entry
/// whose name (the key before its last `@`) was downloaded, with the exact
/// dependency versions the lockfile records.
pub open spec fn lock_links(pairs: Seq<(String, PackageLock)>, cas: Map<Seq<char>, String>) -> Seq<LinkModel>
    decreases pairs.len(),
{
    if pairs.len() == 0 {
        Seq::empty()
    } else {
        let (key, p) = pairs.last();
        let prev = lock_links(pairs.drop_last(), cas);
        match rsplit_once(key@, '@') {
            Some((name, version)) => if cas.contains_key(name) {
                prev.push(
                    LinkModel {
                        name,
                        version,
                        source_dir: cas[name]@,
                        dependencies: text_map(p.dependencies@),
                        bin_entries: Seq::empty(),
                    },
                )
            } else {
                prev
            },
            None => prev,
        }
    }
}

/// The packages to lay out for a lockfile install. Every key holds an `@`
/// (`lock_items` checks it first).
pub fn lock_linked_packages(lock: &Lockfile, cas_paths: &StrMap<String>) -> (r: Vec<LinkedPackage>)
    requires
        forall|i: int|
            0 <= i < lock.packages.pairs().len() ==> #[trigger] rsplit_once(
                lock.packages.pairs()[i].0@,
                '@',
            ) is Some,
    ensures
        links_view(r@) == lock_links(lock.packages.pairs(), cas_paths@),
{
    let n = lock.packages.len();
    let ghost pairs = lock.packages.pairs();
    let mut out: Vec<LinkedPackage> = Vec::new();
    let mut i: usize = 0;
    assert(links_view(out@) =~= lock_links(pairs.take(0), cas_paths@));
    while i < n
        invariant
            n == pairs.len(),
            pairs == lock.packages.pairs(),
            forall|j: int| 0 <= j < n ==> #[trigger] rsplit_once(pairs[j].0@, '@') is Some,
            i <= n,
            links_view(out@) == lock_links(pairs.take(i as int), cas_paths@),
        decreases n - i,
    {
        proof {
            assert(pairs.take(i + 1).drop_last() =~= pairs.take(i as int));
            assert(pairs.take(i + 1).last() == pairs[i as int]);
        }
        let key = lock.packages.key_at(i);
        let entry = lock.packages.value_at(i);
        assert(rsplit_once(pairs[i as int].0@, '@') is Some);
        let (name, version) = match rsplit_once_char(key.as_str(), '@') {
            Some(p) => p,
            None => {
                assert(false);
                (String::new(), String::new())
            },
        };
        match cas_paths.get(name.as_str()) {
            Some(dir) => {
                let p = LinkedPackage {
                    name,
                    version,
                    source_dir: dir.clone(),
                    dependencies: entry.dependencies.copy_strings(),
                    bin_entries: Vec::new(),
                };
                assert(p@.bin_entries =~= Seq::<(Seq<char>, Seq<char>)>::empty());
                let ghost prev = links_view(out@);
                let ghost pv = p@;
                out.push(p);
                assert(links_view(out@) =~= prev.push(pv));
            },
            None => {},
        }
        i = i + 1;
    }
    assert(pairs.take(n as int) =~= pairs);
    out
}

} // verus!
