//! Breadth-first dependency resolver.
//!
//! Walks the dependency graph in breadth-first order, picks the highest
//! version satisfying each range, and reports `ResolutionConflict` when a
//! later range rejects the version already chosen (sticky-first). Local
//! (`file:`) and git dependencies are read from their own `package.json`,
//! and root-level overrides are applied by name.
//!
//! The resolver is a state machine: `step` decides what happens to the next
//! pending package and says when it needs registry metadata or a local
//! package; the caller fetches or reads it and hands it back.
use crate::error::{GurokuError, Result};
use crate::manifest::{text_pairs, Manifest};
use crate::registry::{keys_of, version_keys, Dist, InfoModel, PackageMetadata, VersionInfo};
use crate::specs::{classify, classify_spec, DepSpec, GitRef, SpecModel};
use crate::strmap::{text_map, StrMap};
use crate::version::{best_satisfying, max_satisfying, parse_range, parse_version, range_satisfies, range_source, range_to_string, semver_range_parses, semver_satisfies, semver_version_parse, version_text, version_to_string, SemverRange, Version};
use vstd::prelude::*;

verus! {

#[derive(Debug)]
pub struct Resolved {
    pub info: VersionInfo,
    /// Set when the package's files come from a local path (file:/git:)
    /// rather than the registry.
    pub local_source: Option<String>,
    /// The registry name of an aliased package.
    pub aliased_from: Option<String>,
}

#[derive(Debug)]
pub struct Resolution {
    pub packages: StrMap<Resolved>,
}

impl Resolution {
    pub fn len(&self) -> (n: usize)
        ensures
            n == self.packages.pairs().len(),
    {
        self.packages.len()
    }

    pub fn is_empty(&self) -> (b: bool)
        ensures
            b == (self.packages.pairs().len() == 0),
    {
        self.packages.is_empty()
    }
}

/// A package waiting in the queue: its name, its spec, and the path of
/// packages from a root down to the one that asked for it, as `a > b`
/// (none for a root).
#[derive(Debug)]
pub struct Pending {
    pub name: String,
    pub spec: String,
    pub requested_by: Option<String>,
}

pub open spec fn pending_view(p: Pending) -> (Seq<char>, Seq<char>, Option<Seq<char>>) {
    (p.name@, p.spec@, crate::registry::opt_view(p.requested_by))
}

/// The path from a root down to a pending package: the path of its
/// requester, ` > `, and its name; a root's path is its name.
pub open spec fn req_path(p: (Seq<char>, Seq<char>, Option<Seq<char>>)) -> Seq<char> {
    match p.2 {
        Some(b) => b + " > "@ + p.0,
        None => p.0,
    }
}

/// How a registry package was picked: the registry name, the range text,
/// and the highest satisfying version.
#[derive(Debug)]
pub struct Pick {
    pub registry_name: String,
    pub range: String,
    pub best: Version,
}

/// The version chosen for a package name.
#[derive(Debug)]
pub struct Chosen {
    /// The version as parsed from `info.version`.
    pub version: Version,
    pub info: VersionInfo,
    pub source: Option<String>,
    pub aliased_from: Option<String>,
    pub pick: Option<Pick>,
}

/// The spec under all aliases.
pub open spec fn inner_spec(d: SpecModel) -> SpecModel
    decreases d,
{
    match d {
        SpecModel::Alias { real_name, inner } => inner_spec(*inner),
        _ => d,
    }
}

/// The registry name under all aliases (the innermost alias), if any.
pub open spec fn alias_target(d: SpecModel) -> Option<Seq<char>>
    decreases d,
{
    match d {
        SpecModel::Alias { real_name, inner } => match alias_target(*inner) {
            Some(t) => Some(t),
            None => Some(real_name),
        },
        _ => None,
    }
}

fn innermost(d: &DepSpec) -> (r: &DepSpec)
    ensures
        r@ == inner_spec(d@),
    decreases d,
{
    match d {
        DepSpec::Alias { real_name: _, inner } => innermost(inner),
        _ => d,
    }
}

fn alias_of(d: &DepSpec) -> (r: Option<String>)
    ensures
        crate::registry::opt_view(r) == alias_target(d@),
    decreases d,
{
    match d {
        DepSpec::Alias { real_name, inner } => match alias_of(inner) {
            Some(t) => Some(t),
            None => Some(real_name.clone()),
        },
        _ => None,
    }
}

/// The names of the roots whose spec is a plain range (their metadata can
/// be fetched up front).
pub fn registry_root_names(roots: &Vec<(String, String)>) -> (r: Vec<String>)
    ensures
        r@.map_values(|s: String| s@) == registry_roots_spec(text_pairs(roots@)),
{
    let n = roots.len();
    let mut out: Vec<String> = Vec::new();
    let mut i: usize = 0;
    while i < n
        invariant
            n == roots@.len(),
            i <= n,
            out@.map_values(|s: String| s@) == registry_roots_spec(text_pairs(roots@.take(i as int))),
        decreases n - i,
    {
        let d = classify(roots[i].1.as_str());
        proof {
            assert(text_pairs(roots@.take(i + 1)).drop_last() =~= text_pairs(roots@.take(i as int)));
            assert(text_pairs(roots@.take(i + 1)).last() == (roots@[i as int].0@, roots@[i as int].1@));
        }
        if let DepSpec::Range(_) = d {
            let k = roots[i].0.clone();
            let ghost prev = out@.map_values(|s: String| s@);
            out.push(k);
            proof {
                assert(out@.map_values(|s: String| s@) =~= prev.push(k@));
            }
        }
        i = i + 1;
    }
    assert(roots@.take(n as int) =~= roots@);
    out
}

pub open spec fn registry_roots_spec(roots: Seq<(Seq<char>, Seq<char>)>) -> Seq<Seq<char>>
    decreases roots.len(),
{
    if roots.len() == 0 {
        Seq::empty()
    } else {
        let prev = registry_roots_spec(roots.drop_last());
        if classify_spec(roots.last().1) is Range {
            prev.push(roots.last().0)
        } else {
            prev
        }
    }
}

/// The `VersionInfo` of a local package from its `package.json`: its name
/// (or the declared name), its version (or `0.0.0-local`), its
/// dependencies, and a placeholder tarball URL (local packages are never
/// downloaded).
pub fn local_version_info(m: &Manifest, expected_name: &str) -> (r: VersionInfo)
    ensures
        r.name@ == match m.name {
            Some(n) => n@,
            None => expected_name@,
        },
        r.version@ == match m.version {
            Some(v) => v@,
            None => "0.0.0-local"@,
        },
        r.dist.tarball@ == "file:///guroku-local-source"@,
        r.dist.integrity is None,
        r.dist.shasum is None,
        r.dependencies@ == m.dependencies@,
        r.dependencies.pairs() == m.dependencies.pairs(),
{
    let name = match &m.name {
        Some(n) => n.clone(),
        None => expected_name.to_owned(),
    };
    let version = match &m.version {
        Some(v) => v.clone(),
        None => "0.0.0-local".to_owned(),
    };
    VersionInfo {
        name,
        version,
        dist: Dist { tarball: "file:///guroku-local-source".to_owned(), integrity: None, shasum: None },
        dependencies: m.dependencies.copy_strings(),
    }
}

/// Parse the range of a dependency, reporting a range that does not parse
/// as `InvalidVersionSpec` for that package.
pub fn parse_range_for(name: &str, spec: &str) -> (r: Result<SemverRange>)
    ensures
        r is Ok <==> semver_range_parses(range_source(spec@)),
        r matches Ok(range) ==> range@ == range_source(spec@),
        r matches Err(e) ==> (e matches GurokuError::InvalidVersionSpec { name: n, spec: s } && n@
            == name@ && s@ == spec@),
{
    match parse_range(spec) {
        Ok(range) => Ok(range),
        Err(_) => Err(GurokuError::InvalidVersionSpec { name: name.to_owned(), spec: spec.to_owned() }),
    }
}

/// Once every request is processed, the resolved names are exactly the
/// names requested (the roots and the dependencies of resolved packages),
/// and every dependency of a resolved package is itself resolved.
pub proof fn lemma_done_closed(r: BfsResolver)
    requires
        r.wf(),
        r.head_spec() == r.queue_view().len(),
    ensures
        forall|n: Seq<char>|
            #[trigger] r.chosen_map().contains_key(n) <==> requested_before(
                r.queue_view(),
                r.queue_view().len() as int,
                n,
            ),
        forall|n: Seq<char>, d: Seq<char>|
            r.chosen_map().contains_key(n) && #[trigger] dep_of(r.chosen_map()[n].info@, d)
                ==> r.chosen_map().contains_key(d),
{
    let q = r.queue_view();
    assert forall|n: Seq<char>| requested_before(q, q.len() as int, n) implies #[trigger] r.chosen_map().contains_key(n) by {
        let j = choose|j: int| 0 <= j < q.len() && #[trigger] q[j].0 == n;
        assert(r.chosen_map().contains_key(q[j].0));
    }
    assert forall|n: Seq<char>, d: Seq<char>|
        r.chosen_map().contains_key(n) && #[trigger] dep_of(r.chosen_map()[n].info@, d)
        implies r.chosen_map().contains_key(d) by {
        assert(requested_before(q, q.len() as int, d));
        let j = choose|j: int| 0 <= j < q.len() && #[trigger] q[j].0 == d;
        assert(r.chosen_map().contains_key(q[j].0));
    }
}

/// Once every request is processed, every registry range that was asked
/// for parses and is satisfied by the version resolved under its name,
/// provided each package picked from the registry declares in its record
/// the version it was picked as.
pub proof fn lemma_done_ranges_satisfied(r: BfsResolver)
    requires
        r.wf(),
        r.head_spec() == r.queue_view().len(),
        forall|n: Seq<char>| #[trigger]
            r.chosen_map().contains_key(n) ==> (r.chosen_map()[n].pick matches Some(p)
                ==> r.chosen_map()[n].version@ == p.best@),
    ensures
        forall|k: int|
            0 <= k < r.queue_view().len() ==> (#[trigger] r.requested_range(k) matches Some(src)
                ==> semver_range_parses(src) && semver_satisfies(
                src,
                r.chosen_map()[r.queue_view()[k].0].version@,
            )),
{
    assert forall|k: int| 0 <= k < r.queue_view().len() implies (#[trigger] r.requested_range(k) matches Some(src)
        ==> semver_range_parses(src) && semver_satisfies(
        src,
        r.chosen_map()[r.queue_view()[k].0].version@,
    )) by {
        let n = r.queue_view()[k].0;
        assert(r.chosen_map().contains_key(n));
    }
}

/// What the resolver needs next.
#[derive(Debug)]
pub enum ResolveStep {
    /// A package was settled; call `step` again.
    Progress,
    /// Fetch the registry metadata of `name` and hand it to
    /// `provide_metadata`.
    NeedMetadata { name: String },
    /// Read the `package.json` at `path` for package `name` and hand its
    /// `local_version_info` to `accept_local`.
    NeedLocal { name: String, path: String },
    /// Clone `git` for package `name`, read its `package.json`, and hand its
    /// `local_version_info` to `accept_local`.
    NeedGit { name: String, git: GitRef },
    /// Every package is settled; `finish` gives the resolution.
    Done,
}

pub struct BfsResolver {
    overrides: StrMap<String>,
    queue: Vec<Pending>,
    head: usize,
    chosen: StrMap<Chosen>,
    metadata: StrMap<PackageMetadata>,
}

/// A registry pick agrees with the metadata it was made from: the range
/// parses, the picked version is the highest satisfying version of the
/// metadata's version keys, and the record is the one under its rendering.
pub open spec fn pick_ok(c: Chosen, metadata: Map<Seq<char>, PackageMetadata>) -> bool {
    match c.pick {
        Some(p) => {
            &&& metadata.contains_key(p.registry_name@)
            &&& semver_range_parses(p.range@)
            &&& best_satisfying(version_keys(metadata[p.registry_name@]), p.range@) == Some(p.best@)
            &&& metadata[p.registry_name@].versions@.contains_key(version_text(p.best@))
            &&& c.info@ == metadata[p.registry_name@].versions@[version_text(p.best@)]@
        },
        None => c.source is Some,
    }
}

/// A request for the range `src` is met by a settled package: its version
/// satisfies the range, or the package was picked from the registry for
/// this very range and the picked version satisfies it.
pub open spec fn range_met(c: Chosen, src: Seq<char>) -> bool {
    ||| semver_satisfies(src, c.version@)
    ||| (c.pick matches Some(p) && p.range@ == src && semver_satisfies(src, p.best@))
}

/// Whether one of the first `k` requests is for `n`.
pub open spec fn requested_before(q: Seq<(Seq<char>, Seq<char>, Option<Seq<char>>)>, k: int, n: Seq<char>) -> bool {
    exists|j: int| 0 <= j < k && #[trigger] q[j].0 == n
}

/// Whether a package record depends on `d`.
pub open spec fn dep_of(info: InfoModel, d: Seq<char>) -> bool {
    exists|i: int| 0 <= i < info.dependencies.len() && #[trigger] info.dependencies[i].0 == d
}

impl BfsResolver {
    pub closed spec fn queue_view(&self) -> Seq<(Seq<char>, Seq<char>, Option<Seq<char>>)> {
        self.queue@.map_values(|p: Pending| pending_view(p))
    }

    pub closed spec fn head_spec(&self) -> nat {
        self.head as nat
    }

    pub closed spec fn chosen_map(&self) -> Map<Seq<char>, Chosen> {
        self.chosen@
    }

    pub closed spec fn metadata_map(&self) -> Map<Seq<char>, PackageMetadata> {
        self.metadata@
    }

    pub closed spec fn overrides_map(&self) -> Map<Seq<char>, Seq<char>> {
        text_map(self.overrides@)
    }

    /// Every registry pick so far is the highest version satisfying its
    /// range among the metadata's versions, and every other choice comes
    /// from a local source.
    pub open spec fn highest_choices(&self) -> bool {
        forall|n: Seq<char>| #[trigger]
            self.chosen_map().contains_key(n) ==> pick_ok(self.chosen_map()[n], self.metadata_map())
    }

    /// The settled names are exactly those of the requests processed so far,
    /// and every dependency of a settled package has been requested (so once
    /// every request is processed, the resolution holds the roots and every
    /// dependency of every package in it).
    pub open spec fn settled_ok(&self) -> bool {
        &&& forall|k: int|
            0 <= k < self.head_spec() ==> self.chosen_map().contains_key(
                (#[trigger] self.queue_view()[k]).0,
            )
        &&& forall|n: Seq<char>|
            #[trigger] self.chosen_map().contains_key(n) ==> requested_before(
                self.queue_view(),
                self.head_spec() as int,
                n,
            )
        &&& forall|n: Seq<char>, d: Seq<char>|
            self.chosen_map().contains_key(n) && #[trigger] dep_of(self.chosen_map()[n].info@, d)
                ==> requested_before(self.queue_view(), self.queue_view().len() as int, d)
    }

    /// Every processed request for a registry range asked for a range that
    /// parses, and the package settled under its name meets that range.
    pub open spec fn ranges_ok(&self) -> bool {
        forall|k: int|
            0 <= k < self.head_spec() ==> match #[trigger] self.requested_range(k) {
                Some(src) => semver_range_parses(src) && range_met(
                    self.chosen_map()[self.queue_view()[k].0],
                    src,
                ),
                None => true,
            }
    }

    pub open spec fn wf(&self) -> bool {
        &&& self.head_spec() <= self.queue_view().len()
        &&& self.highest_choices()
        &&& self.settled_ok()
        &&& self.ranges_ok()
    }

    /// The spec in force for the `k`-th request: the override for its name,
    /// or its own spec.
    pub open spec fn effective_at(&self, k: int) -> Seq<char> {
        let p = self.queue_view()[k];
        if self.overrides_map().contains_key(p.0) {
            self.overrides_map()[p.0]
        } else {
            p.1
        }
    }

    /// The registry range (under any aliases) that the `k`-th request asks
    /// for, if it asks for one.
    pub open spec fn requested_range(&self, k: int) -> Option<Seq<char>> {
        match inner_spec(classify_spec(self.effective_at(k))) {
            SpecModel::Range(rt) => Some(range_source(rt)),
            _ => None,
        }
    }

    /// The spec in force for the pending package at the head.
    pub open spec fn head_effective(&self) -> Seq<char> {
        self.effective_at(self.head_spec() as int)
    }

    /// A resolver for `roots` (`(name, spec)` in order) with the overrides
    /// applied by name.
    pub fn new(roots: &Vec<(String, String)>, overrides: StrMap<String>) -> (r: BfsResolver)
        ensures
            r.wf(),
            r.head_spec() == 0,
            r.queue_view() == text_pairs(roots@).map_values(
                |p: (Seq<char>, Seq<char>)| (p.0, p.1, None::<Seq<char>>),
            ),
            r.chosen_map() == Map::<Seq<char>, Chosen>::empty(),
            r.metadata_map() == Map::<Seq<char>, PackageMetadata>::empty(),
            r.overrides_map() == text_map(overrides@),
    {
        let n = roots.len();
        let mut queue: Vec<Pending> = Vec::new();
        let mut i: usize = 0;
        while i < n
            invariant
                n == roots@.len(),
                i <= n,
                queue@.map_values(|p: Pending| pending_view(p)) == text_pairs(roots@.take(i as int)).map_values(
                    |p: (Seq<char>, Seq<char>)| (p.0, p.1, None::<Seq<char>>),
                ),
            decreases n - i,
        {
            let p = Pending { name: roots[i].0.clone(), spec: roots[i].1.clone(), requested_by: None };
            let ghost prev = queue@.map_values(|p: Pending| pending_view(p));
            queue.push(p);
            proof {
                assert(queue@.map_values(|p: Pending| pending_view(p)) =~= prev.push(pending_view(p)));
                assert(text_pairs(roots@.take(i + 1)).map_values(
                    |p: (Seq<char>, Seq<char>)| (p.0, p.1, None::<Seq<char>>),
                ) =~= text_pairs(roots@.take(i as int)).map_values(
                    |p: (Seq<char>, Seq<char>)| (p.0, p.1, None::<Seq<char>>),
                ).push(pending_view(p)));
            }
            i = i + 1;
        }
        assert(roots@.take(n as int) =~= roots@);
        let r = BfsResolver { overrides, queue, head: 0, chosen: StrMap::new(), metadata: StrMap::new() };
        r
    }

    /// Whether a package is waiting.
    pub fn has_pending(&self) -> (b: bool)
        ensures
            b == (self.head_spec() < self.queue_view().len()),
    {
        self.head < self.queue.len()
    }

    /// Hand over the metadata of a registry package; a package's metadata
    /// is kept from its first fetch.
    pub fn provide_metadata(&mut self, name: String, meta: PackageMetadata)
        requires
            old(self).wf(),
        ensures
            final(self).wf(),
            final(self).metadata_map() == if old(self).metadata_map().contains_key(name@) {
                old(self).metadata_map()
            } else {
                old(self).metadata_map().insert(name@, meta)
            },
            final(self).chosen_map() == old(self).chosen_map(),
            final(self).queue_view() == old(self).queue_view(),
            final(self).head_spec() == old(self).head_spec(),
            final(self).overrides_map() == old(self).overrides_map(),
    {
        if !self.metadata.contains_key(name.as_str()) {
            self.metadata.insert(name, meta);
            proof {
                assert forall|n: Seq<char>| #[trigger] self.chosen_map().contains_key(n) implies pick_ok(
                    self.chosen_map()[n],
                    self.metadata_map(),
                ) by {
                    assert(pick_ok(old(self).chosen_map()[n], old(self).metadata_map()));
                }
                assert forall|k: int| 0 <= k < self.head_spec() implies match #[trigger] self.requested_range(k) {
                    Some(src) => semver_range_parses(src) && range_met(
                        self.chosen_map()[self.queue_view()[k].0],
                        src,
                    ),
                    None => true,
                } by {
                    assert(self.requested_range(k) == old(self).requested_range(k));
                }
            }
        }
    }

    /// Record `info` (with its source) as the choice for `name`, and queue
    /// its dependencies, asked for by `name`.
    fn record(
        &mut self,
        name: &str,
        info: VersionInfo,
        source: Option<String>,
        aliased_from: Option<String>,
        pick: Option<Pick>,
    ) -> (r: Result<()>)
        requires
            old(self).wf(),
            old(self).head_spec() < old(self).queue_view().len(),
            pick matches Some(p) ==> pick_ok(
                Chosen { version: p.best, info, source, aliased_from, pick },
                old(self).metadata_map(),
            ),
            pick is None ==> source is Some,
            name@ == old(self).queue_view()[old(self).head_spec() as int].0,
            !old(self).chosen_map().contains_key(name@),
            pick matches Some(p) ==> old(self).requested_range(old(self).head_spec() as int) == Some(
                p.range@,
            ),
            pick is None ==> old(self).requested_range(old(self).head_spec() as int) is None,
        ensures
            final(self).wf(),
            final(self).metadata_map() == old(self).metadata_map(),
            final(self).overrides_map() == old(self).overrides_map(),
            match semver_version_parse(info.version@) {
                Some(v) => {
                    &&& r is Ok
                    &&& final(self).head_spec() == old(self).head_spec() + 1
                    &&& final(self).chosen_map().dom() == old(self).chosen_map().dom().insert(name@)
                    &&& final(self).chosen_map()[name@].version@ == v
                    &&& final(self).chosen_map()[name@].info@ == info@
                    &&& crate::registry::opt_view(final(self).chosen_map()[name@].source)
                        == crate::registry::opt_view(source)
                    &&& forall|n: Seq<char>|
                        n != name@ && #[trigger] old(self).chosen_map().contains_key(n)
                            ==> final(self).chosen_map()[n] == old(self).chosen_map()[n]
                    &&& final(self).queue_view() == old(self).queue_view() + info@.dependencies.map_values(
                        |d: (Seq<char>, Seq<char>)| (
                            d.0,
                            d.1,
                            Some(req_path(old(self).queue_view()[old(self).head_spec() as int])),
                        ),
                    )
                },
                None => r matches Err(GurokuError::Other(m)) && m@ == "package `"@ + name@
                    + "` has invalid version `"@ + info.version@ + "`"@,
            },
    {
        let parsed = match parse_version(info.version.as_str()) {
            Ok(v) => v,
            Err(_) => {
                let a = crate::text::concat3("package `", name, "` has invalid version `");
                let m = crate::text::concat3(a.as_str(), info.version.as_str(), "`");
                return Err(GurokuError::Other(m));
            },
        };
        let path = match &self.queue[self.head].requested_by {
            Some(b) => crate::text::concat3(b.as_str(), " > ", self.queue[self.head].name.as_str()),
            None => self.queue[self.head].name.clone(),
        };
        proof {
            assert(self.queue_view()[self.head as int] == pending_view(self.queue@[self.head as int]));
            assert(path@ == req_path(old(self).queue_view()[old(self).head_spec() as int]));
        }
        let ghost pv = path@;
        let ghost old_queue = self.queue_view();
        assert(self.queue_view().len() == self.queue@.len());
        let deps = info.dependencies.len();
        let mut i: usize = 0;
        while i < deps
            invariant
                deps == info.dependencies.pairs().len(),
                i <= deps,
                self.head == old(self).head,
                self.head < self.queue@.len(),
                self.chosen@ == old(self).chosen@,
                self.metadata@ == old(self).metadata@,
                self.overrides@ == old(self).overrides@,
                path@ == pv,
                self.queue_view() == old_queue + text_pairs(info.dependencies.pairs().take(i as int)).map_values(
                    |d: (Seq<char>, Seq<char>)| (d.0, d.1, Some(pv)),
                ),
            decreases deps - i,
        {
            let p = Pending {
                name: info.dependencies.key_at(i).clone(),
                spec: info.dependencies.value_at(i).clone(),
                requested_by: Some(path.clone()),
            };
            let ghost prev = self.queue_view();
            self.queue.push(p);
            proof {
                assert(self.queue_view() =~= prev.push(pending_view(p)));
                let ps = info.dependencies.pairs();
                assert(text_pairs(ps.take(i + 1)) =~= text_pairs(ps.take(i as int)).push(
                    (ps[i as int].0@, ps[i as int].1@),
                ));
                assert(text_pairs(ps.take(i + 1)).map_values(
                    |d: (Seq<char>, Seq<char>)| (d.0, d.1, Some(pv)),
                ) =~= text_pairs(ps.take(i as int)).map_values(
                    |d: (Seq<char>, Seq<char>)| (d.0, d.1, Some(pv)),
                ).push(pending_view(p)));
            }
            i = i + 1;
        }
        proof {
            assert(info.dependencies.pairs().take(deps as int) =~= info.dependencies.pairs());
        }
        let ghost info_view = info@;
        let h = self.head;
        let qlen = self.queue.len();
        assert(h < qlen);
        let c = Chosen { version: parsed, info, source, aliased_from, pick };
        proof {
            if c.pick is None {
                assert(c.source is Some);
            }
        }
        self.chosen.insert(name.to_owned(), c);
        self.head = h + 1;
        proof {
            assert(self.chosen_map().dom() =~= old(self).chosen_map().dom().insert(name@));
            assert forall|n: Seq<char>| #[trigger] self.chosen_map().contains_key(n) implies pick_ok(
                self.chosen_map()[n],
                self.metadata_map(),
            ) by {
                if n != name@ {
                    assert(pick_ok(old(self).chosen_map()[n], old(self).metadata_map()));
                }
            }
            let q0 = old(self).queue_view();
            let q1 = self.queue_view();
            let hh = h as int;
            let ds = info_view.dependencies;
            assert(q1 == q0 + ds.map_values(|d: (Seq<char>, Seq<char>)| (d.0, d.1, Some(pv))));
            assert forall|k: int| 0 <= k < q0.len() implies q1[k] == q0[k] by {}
            assert forall|k: int| 0 <= k < self.head_spec() implies self.chosen_map().contains_key(
                (#[trigger] self.queue_view()[k]).0,
            ) by {
                if k < hh {
                    assert(q1[k] == q0[k]);
                    assert(old(self).chosen_map().contains_key(q0[k].0));
                }
            }
            assert forall|n: Seq<char>| #[trigger] self.chosen_map().contains_key(n) implies requested_before(
                self.queue_view(),
                self.head_spec() as int,
                n,
            ) by {
                if n == name@ {
                    assert(q1[hh].0 == n);
                } else {
                    assert(old(self).chosen_map().contains_key(n));
                    let j = choose|j: int| 0 <= j < hh && #[trigger] q0[j].0 == n;
                    assert(q1[j] == q0[j]);
                }
            }
            assert forall|n: Seq<char>, d: Seq<char>|
                self.chosen_map().contains_key(n) && #[trigger] dep_of(self.chosen_map()[n].info@, d)
                implies requested_before(self.queue_view(), self.queue_view().len() as int, d) by {
                if n == name@ {
                    assert(self.chosen_map()[n].info@ == info_view);
                    let i = choose|i: int| 0 <= i < ds.len() && #[trigger] ds[i].0 == d;
                    assert(q1[q0.len() + i].0 == d);
                } else {
                    assert(old(self).chosen_map().contains_key(n));
                    assert(old(self).chosen_map()[n] == self.chosen_map()[n]);
                    let j = choose|j: int| 0 <= j < q0.len() && #[trigger] q0[j].0 == d;
                    assert(q1[j] == q0[j]);
                }
            }
            assert forall|k: int| 0 <= k < self.head_spec() implies match #[trigger] self.requested_range(k) {
                Some(src) => semver_range_parses(src) && range_met(
                    self.chosen_map()[self.queue_view()[k].0],
                    src,
                ),
                None => true,
            } by {
                assert(q1[k] == q0[k]);
                assert(self.requested_range(k) == old(self).requested_range(k));
                if k < hh {
                    assert(old(self).chosen_map().contains_key(q0[k].0));
                    assert(self.chosen_map()[q0[k].0] == old(self).chosen_map()[q0[k].0]);
                } else {
                    let c = self.chosen_map()[name@];
                    if let Some(p) = c.pick {
                        let m = self.metadata_map()[p.registry_name@];
                        crate::version::lemma_best_satisfying_is_max(version_keys(m), p.range@);
                        let w = choose|w: int|
                            0 <= w < version_keys(m).len() && #[trigger] crate::version::admissible(
                                version_keys(m)[w],
                                p.range@,
                                p.best@,
                            );
                        assert(semver_satisfies(p.range@, p.best@));
                    }
                }
            }
        }
        Ok(())
    }

    /// Whether the head of the queue is an unsettled request that is not for
    /// a registry range, as after `NeedLocal` or `NeedGit`.
    pub open spec fn awaits_local(&self) -> bool {
        &&& self.head_spec() < self.queue_view().len()
        &&& !self.chosen_map().contains_key(self.queue_view()[self.head_spec() as int].0)
        &&& self.requested_range(self.head_spec() as int) is None
    }

    /// Whether `accept_local` may be called now.
    pub fn is_awaiting_local(&self) -> (b: bool)
        ensures
            b == self.awaits_local(),
    {
        if self.head >= self.queue.len() {
            return false;
        }
        let name = &self.queue[self.head].name;
        proof {
            assert(self.queue_view()[self.head as int] == pending_view(self.queue@[self.head as int]));
        }
        if self.chosen.contains_key(name.as_str()) {
            return false;
        }
        let spec_text = match self.overrides.get(name.as_str()) {
            Some(v) => v.clone(),
            None => self.queue[self.head].spec.clone(),
        };
        assert(spec_text@ == self.head_effective());
        let d = classify(spec_text.as_str());
        let k = innermost(&d);
        match k {
            DepSpec::Range(_) => false,
            _ => true,
        }
    }

    /// Settle a local (file:/git:) package at the head of the queue with the
    /// record read from its `package.json` and the directory it lives in.
    pub fn accept_local(&mut self, info: VersionInfo, source: String) -> (r: Result<()>)
        requires
            old(self).wf(),
            old(self).awaits_local(),
        ensures
            final(self).wf(),
            final(self).metadata_map() == old(self).metadata_map(),
            match semver_version_parse(info.version@) {
                Some(v) => {
                    let name = old(self).queue_view()[old(self).head_spec() as int].0;
                    &&& r is Ok
                    &&& final(self).head_spec() == old(self).head_spec() + 1
                    &&& final(self).chosen_map().contains_key(name)
                    &&& final(self).chosen_map()[name].version@ == v
                    &&& final(self).chosen_map()[name].info@ == info@
                    &&& final(self).chosen_map()[name].source matches Some(s) && s@ == source@
                    &&& final(self).queue_view() == old(self).queue_view() + info@.dependencies.map_values(
                        |d: (Seq<char>, Seq<char>)| (
                            d.0,
                            d.1,
                            Some(req_path(old(self).queue_view()[old(self).head_spec() as int])),
                        ),
                    )
                },
                None => r matches Err(GurokuError::Other(m)) && m@ == "package `"@
                    + old(self).queue_view()[old(self).head_spec() as int].0
                    + "` has invalid version `"@ + info.version@ + "`"@,
            },
    {
        let name = self.queue[self.head].name.clone();
        let spec_text = match self.overrides.get(name.as_str()) {
            Some(v) => v.clone(),
            None => self.queue[self.head].spec.clone(),
        };
        let d = classify(spec_text.as_str());
        let aliased = alias_of(&d);
        proof {
            assert(self.queue_view()[self.head as int].0 == name@);
        }
        self.record(name.as_str(), info, Some(source), aliased, None)
    }

    /// Decide what happens to the package at the head of the queue. A
    /// range that the version already chosen for its name does not meet is a
    /// `ResolutionConflict` at once: this resolver does not go back to
    /// re-pick an earlier choice (the PubGrub path is the one that
    /// backtracks).
    pub fn step(&mut self) -> (r: Result<ResolveStep>)
        requires
            old(self).wf(),
        ensures
            final(self).wf(),
            final(self).metadata_map() == old(self).metadata_map(),
            final(self).overrides_map() == old(self).overrides_map(),
            old(self).head_spec() == old(self).queue_view().len() ==> (r matches Ok(ResolveStep::Done)
                && final(self).head_spec() == old(self).head_spec()
                && final(self).chosen_map() == old(self).chosen_map()),
            old(self).head_spec() < old(self).queue_view().len() ==> ({
                let p = old(self).queue_view()[old(self).head_spec() as int];
                let d = classify_spec(old(self).head_effective());
                let k = inner_spec(d);
                let target = match alias_target(d) {
                    Some(t) => t,
                    None => p.0,
                };
                if old(self).chosen_map().contains_key(p.0) {
                    let existing = old(self).chosen_map()[p.0].version@;
                    match k {
                        SpecModel::Range(rt) => if !semver_range_parses(range_source(rt)) {
                            r matches Err(GurokuError::InvalidVersionSpec { name, spec }) && name@
                                == p.0 && spec@ == rt
                        } else if !semver_satisfies(range_source(rt), existing) {
                            r matches Err(
                                GurokuError::ResolutionConflict { name, chosen, requested, requested_by },
                            ) && name@ == p.0 && chosen@ == version_text(existing) && requested@
                                == crate::version::semver_range_text(range_source(rt))
                                && requested_by@ == match p.2 {
                                Some(b) => b,
                                None => "<root>"@,
                            }
                        } else {
                            r matches Ok(ResolveStep::Progress) && final(self).head_spec()
                                == old(self).head_spec() + 1 && final(self).chosen_map()
                                == old(self).chosen_map() && final(self).queue_view()
                                == old(self).queue_view()
                        },
                        _ => r matches Ok(ResolveStep::Progress) && final(self).head_spec()
                            == old(self).head_spec() + 1 && final(self).chosen_map()
                            == old(self).chosen_map() && final(self).queue_view()
                            == old(self).queue_view(),
                    }
                } else {
                    match k {
                        SpecModel::Range(rt) => if !semver_range_parses(range_source(rt)) {
                            r matches Err(GurokuError::InvalidVersionSpec { name, spec }) && name@
                                == p.0 && spec@ == rt
                        } else if !old(self).metadata_map().contains_key(target) {
                            r matches Ok(ResolveStep::NeedMetadata { name }) && name@ == target
                                && final(self).head_spec() == old(self).head_spec()
                                && final(self).chosen_map() == old(self).chosen_map()
                                && final(self).queue_view() == old(self).queue_view()
                        } else {
                            let meta = old(self).metadata_map()[target];
                            match best_satisfying(version_keys(meta), range_source(rt)) {
                                None => r matches Err(GurokuError::NoMatchingVersion { name, spec })
                                    && name@ == p.0 && spec@ == crate::version::semver_range_text(
                                    range_source(rt),
                                ),
                                Some(b) => if !meta.versions@.contains_key(version_text(b)) {
                                    r matches Err(GurokuError::Other(m)) && m@ == "selected version `"@
                                        + version_text(b) + "` of `"@ + p.0
                                        + "` missing from metadata"@
                                } else {
                                    let info = meta.versions@[version_text(b)];
                                    match semver_version_parse(info.version@) {
                                        None => r matches Err(GurokuError::Other(m)) && m@
                                            == "package `"@ + p.0 + "` has invalid version `"@
                                            + info.version@ + "`"@,
                                        Some(v) => {
                                            &&& r matches Ok(ResolveStep::Progress)
                                            &&& final(self).head_spec() == old(self).head_spec() + 1
                                            &&& final(self).chosen_map().dom() == old(
                                                self,
                                            ).chosen_map().dom().insert(p.0)
                                            &&& final(self).chosen_map()[p.0].version@ == v
                                            &&& final(self).chosen_map()[p.0].info@ == info@
                                            &&& final(self).chosen_map()[p.0].source is None
                                            &&& final(self).queue_view() == old(self).queue_view()
                                                + info@.dependencies.map_values(
                                                |x: (Seq<char>, Seq<char>)| (x.0, x.1, Some(req_path(p))),
                                            )
                                        },
                                    }
                                },
                            }
                        },
                        SpecModel::File(path) => r matches Ok(ResolveStep::NeedLocal { name, path: q })
                            && name@ == p.0 && q@ == path && final(self).head_spec()
                            == old(self).head_spec() && final(self).chosen_map() == old(
                            self,
                        ).chosen_map() && final(self).queue_view() == old(self).queue_view(),
                        SpecModel::Git(g) => r matches Ok(ResolveStep::NeedGit { name, git })
                            && name@ == p.0 && git@ == g && final(self).head_spec()
                            == old(self).head_spec() && final(self).chosen_map() == old(
                            self,
                        ).chosen_map() && final(self).queue_view() == old(self).queue_view(),
                        SpecModel::Alias { .. } => false,
                    }
                }
            }),
    {
        if self.head >= self.queue.len() {
            return Ok(ResolveStep::Done);
        }
        let name = self.queue[self.head].name.clone();
        let spec_text = match self.overrides.get(name.as_str()) {
            Some(v) => v.clone(),
            None => self.queue[self.head].spec.clone(),
        };
        proof {
            assert(self.queue_view()[self.head as int] == pending_view(self.queue@[self.head as int]));
            assert(spec_text@ == self.head_effective());
        }
        let d = classify(spec_text.as_str());
        crate::specs::validate(&d)?;
        let k = innermost(&d);
        let aliased = alias_of(&d);
        let target = match &aliased {
            Some(t) => t.clone(),
            None => name.clone(),
        };
        proof {
            lemma_inner_not_alias(d@);
        }
        if let Some(existing) = self.chosen.get(name.as_str()) {
            if let DepSpec::Range(r) = k {
                let range = match parse_range_for(name.as_str(), r.as_str()) {
                    Ok(x) => x,
                    Err(e) => {
                        return Err(e);
                    },
                };
                if !range_satisfies(&range, &existing.version) {
                    let by = match &self.queue[self.head].requested_by {
                        Some(b) => b.clone(),
                        None => "<root>".to_owned(),
                    };
                    return Err(
                        GurokuError::ResolutionConflict {
                            name,
                            chosen: version_to_string(&existing.version),
                            requested: range_to_string(&range),
                            requested_by: by,
                        },
                    );
                }
            }
            let ghost before = *self;
            self.head = self.head + 1;
            proof {
                assert forall|j: int| 0 <= j < self.head_spec() implies match #[trigger] self.requested_range(j) {
                    Some(src) => semver_range_parses(src) && range_met(
                        self.chosen_map()[self.queue_view()[j].0],
                        src,
                    ),
                    None => true,
                } by {
                    assert(self.requested_range(j) == before.requested_range(j));
                }
            }
            return Ok(ResolveStep::Progress);
        }
        match k {
            DepSpec::Range(r) => {
                let range = match parse_range_for(name.as_str(), r.as_str()) {
                    Ok(x) => x,
                    Err(e) => {
                        return Err(e);
                    },
                };
                let meta = match self.metadata.get(target.as_str()) {
                    Some(m) => m,
                    None => {
                        return Ok(ResolveStep::NeedMetadata { name: target });
                    },
                };
                let candidates = keys_of(&meta.versions);
                let best = match max_satisfying(&candidates, &range) {
                    Some(v) => v,
                    None => {
                        return Err(
                            GurokuError::NoMatchingVersion { name, spec: range_to_string(&range) },
                        );
                    },
                };
                let key = version_to_string(&best);
                let info = match meta.versions.get(key.as_str()) {
                    Some(i) => i.copy(),
                    None => {
                        let a = crate::text::concat3("selected version `", key.as_str(), "` of `");
                        let m = crate::text::concat3(a.as_str(), name.as_str(), "` missing from metadata");
                        return Err(GurokuError::Other(m));
                    },
                };
                let pick = Pick { registry_name: target, range: crate::version::range_text(&range), best };
                self.record(name.as_str(), info, None, aliased, Some(pick))?;
                Ok(ResolveStep::Progress)
            },
            DepSpec::File(path) => Ok(ResolveStep::NeedLocal { name, path: path.clone() }),
            DepSpec::Git(g) => Ok(
                ResolveStep::NeedGit {
                    name,
                    git: GitRef { url: g.url.clone(), revision: crate::registry::copy_opt(&g.revision) },
                },
            ),
            DepSpec::Alias { .. } => Ok(ResolveStep::Done),
        }
    }

    /// The resolution: every chosen package, with its record, local source
    /// and alias.
    pub fn finish(&self) -> (r: Resolution)
        ensures
            r.packages@.dom() == self.chosen_map().dom(),
            forall|n: Seq<char>| #[trigger] r.packages@.contains_key(n) ==> {
                &&& r.packages@[n].info@ == self.chosen_map()[n].info@
                &&& crate::registry::opt_view(r.packages@[n].local_source)
                    == crate::registry::opt_view(self.chosen_map()[n].source)
                &&& crate::registry::opt_view(r.packages@[n].aliased_from)
                    == crate::registry::opt_view(self.chosen_map()[n].aliased_from)
            },
    {
        let mut packages: StrMap<Resolved> = StrMap::new();
        let n = self.chosen.len();
        let mut i: usize = 0;
        while i < n
            invariant
                n == self.chosen.pairs().len(),
                crate::strmap::keys_sorted(self.chosen.pairs()),
                i <= n,
                packages@.dom() == crate::strmap::map_of(self.chosen.pairs().take(i as int)).dom(),
                forall|k: Seq<char>| #[trigger] packages@.contains_key(k) ==> {
                    &&& crate::strmap::map_of(self.chosen.pairs()).contains_key(k)
                    &&& packages@[k].info@ == crate::strmap::map_of(self.chosen.pairs())[k].info@
                    &&& crate::registry::opt_view(packages@[k].local_source)
                        == crate::registry::opt_view(crate::strmap::map_of(self.chosen.pairs())[k].source)
                    &&& crate::registry::opt_view(packages@[k].aliased_from)
                        == crate::registry::opt_view(crate::strmap::map_of(self.chosen.pairs())[k].aliased_from)
                },
            decreases n - i,
        {
            let key = self.chosen.key_at(i);
            let c = self.chosen.value_at(i);
            proof {
                crate::strmap::lemma_map_of_sorted(self.chosen.pairs());
                assert(crate::strmap::map_of(self.chosen.pairs()).contains_key(key@));
                assert(crate::strmap::map_of(self.chosen.pairs())[key@] == *c);
            }
            let res = Resolved {
                info: c.info.copy(),
                local_source: crate::registry::copy_opt(&c.source),
                aliased_from: crate::registry::copy_opt(&c.aliased_from),
            };
            packages.insert(key.clone(), res);
            proof {
                let s = self.chosen.pairs();
                crate::strmap::lemma_map_of_take_step(s, i as int);
                crate::strmap::lemma_map_of_sorted(s);
                assert(packages@.dom() =~= crate::strmap::map_of(s.take(i + 1)).dom());
            }
            i = i + 1;
        }
        proof {
            assert(self.chosen.pairs().take(n as int) =~= self.chosen.pairs());
            self.chosen.lemma_view();
            assert(self.chosen@ =~= crate::strmap::map_of(self.chosen.pairs()));
        }
        Resolution { packages }
    }
}

proof fn lemma_inner_not_alias(d: SpecModel)
    ensures
        !(inner_spec(d) is Alias),
    decreases d,
{
    if let SpecModel::Alias { real_name, inner } = d {
        lemma_inner_not_alias(*inner);
    }
}

} // verus!
