//! The backtracking (PubGrub) resolver: what surrounds the solver.
//!
//! 1. The roots are classified after overrides; a `file:` or `git` root (or
//!    an alias of one) sends the whole resolution to the breadth-first
//!    resolver instead.
//! 2. The metadata of every name that any reachable version depends on is
//!    fetched, each name once, breadth first over names.
//! 3. The solver runs from a synthetic root package against that cache;
//!    its questions (candidate versions, dependencies, which package to
//!    decide next) are answered here.
//! 4. Its answer is turned into a `Resolution`, under the names the user
//!    declared.
//!
//! The solver itself, and the `DependencyProvider` impl that forwards its
//! questions here, are the caller's.
use crate::error::{GurokuError, Result};
use crate::manifest::{text_pairs, Manifest};
use crate::overrides::{lookup_spec, lookup_with_path, path_view};
use crate::registry::{PackageMetadata, VersionInfo, InfoModel};
use crate::resolver::{Resolution, Resolved};
use crate::specs::{classify, classify_spec, validate, DepSpec, SpecModel};
use crate::strmap::{text_map, StrMap};
use crate::text::{concat2, concat3, str_eq};
use crate::version::{parse_range, parse_version, range_satisfies, semver_range_parses, semver_satisfies, semver_version_parse, range_source, version_lt, version_less, version_to_string, version_text, Version, VersionModel, lemma_version_lt_total, lemma_version_lt_transitive, lemma_version_lt_irreflexive};
use vstd::prelude::*;

verus! {

/// The synthetic root package; it cannot be a real npm package name.
pub const ROOT_PACKAGE: &'static str = "$guroku-root";

/// The version of the synthetic root package.
pub const ROOT_VERSION: &'static str = "0.0.0";

/// node-semver's bound on the numeric parts of a version.
pub const MAX_SAFE_INTEGER: u64 = 900_719_925_474_099;

/// A version as the solver orders it.
#[derive(Debug)]
pub struct NpmVersion(pub Version);

impl NpmVersion {
    /// The lowest version: `0.0.0`.
    pub fn lowest() -> (v: NpmVersion)
        ensures
            v.0@ == (VersionModel { major: 0, minor: 0, patch: 0, build: Seq::empty(), pre: Seq::empty() }),
    {
        let v = NpmVersion(
            Version { major: 0, minor: 0, patch: 0, build: Vec::new(), pre_release: Vec::new() },
        );
        assert(v.0@.build =~= Seq::<crate::version::IdentModel>::empty());
        assert(v.0@.pre =~= Seq::<crate::version::IdentModel>::empty());
        v
    }

    /// The smallest next version the solver uses for range complements: the
    /// next patch, without pre-release or build parts (`1.2.3-rc.1` bumps to
    /// `1.2.4`). The parts must stay within node-semver's bound.
    pub fn bump(&self) -> (v: NpmVersion)
        requires
            self.0.major <= MAX_SAFE_INTEGER,
            self.0.minor <= MAX_SAFE_INTEGER,
            self.0.patch < MAX_SAFE_INTEGER,
        ensures
            v.0@ == (VersionModel {
                major: self.0.major,
                minor: self.0.minor,
                patch: (self.0.patch + 1) as u64,
                build: Seq::empty(),
                pre: Seq::empty(),
            }),
    {
        let v = NpmVersion(
            Version {
                major: self.0.major,
                minor: self.0.minor,
                patch: self.0.patch + 1,
                build: Vec::new(),
                pre_release: Vec::new(),
            },
        );
        assert(v.0@.build =~= Seq::<crate::version::IdentModel>::empty());
        assert(v.0@.pre =~= Seq::<crate::version::IdentModel>::empty());
        v
    }

    /// Its text (`Display`).
    pub fn to_text(&self) -> (s: String)
        ensures
            s@ == version_text(self.0@),
    {
        version_to_string(&self.0)
    }
}

/// Which resolver runs: the breadth-first one when the `GUROKU_RESOLVER`
/// setting is `bfs`, the PubGrub solver otherwise.
pub fn use_bfs_resolver(setting: Option<&str>) -> (b: bool)
    ensures
        b == (setting matches Some(v) && v@ == "bfs"@),
{
    match setting {
        Some(v) => str_eq(v, "bfs"),
        None => false,
    }
}

// ---------------------------------------------------------------------------
// Planning the roots
// ---------------------------------------------------------------------------

/// What the solver resolves.
#[derive(Debug)]
pub struct ResolutionPlan {
    /// Registry name to the npm range the synthetic root depends on. An
    /// aliased root contributes under its real name.
    pub registry_root_specs: StrMap<String>,
    /// Declared name to registry name (equal but for `npm:` aliases).
    pub local_to_registry: StrMap<String>,
    /// Declared name to real name, for aliased roots.
    pub aliased_from: StrMap<String>,
}

#[derive(Debug)]
pub enum RootPlan {
    /// Every root is a registry range (possibly aliased).
    AllRegistry(ResolutionPlan),
    /// Some root is local (`file:`/`git`); the breadth-first resolver runs.
    HasLocal,
}

/// The spec a root is resolved with: its override (looked up by its name as
/// a one-element path), else its own.
pub open spec fn effective_spec(m: Manifest, local: Seq<char>, raw: Seq<char>) -> Seq<char> {
    match lookup_spec(m, seq![local]) {
        Some(v) => v,
        None => raw,
    }
}

/// What a root contributes: its registry name, its range, and whether it is
/// an alias; none for a local root.
pub open spec fn root_entry(m: Manifest, local: Seq<char>, raw: Seq<char>) -> Option<(Seq<char>, Seq<char>, bool)> {
    match classify_spec(effective_spec(m, local, raw)) {
        SpecModel::Range(r) => Some((local, r, false)),
        SpecModel::Alias { real_name, inner } => match *inner {
            SpecModel::Range(r) => Some((real_name, r, true)),
            _ => None,
        },
        _ => None,
    }
}

pub open spec fn all_registry(m: Manifest, roots: Seq<(Seq<char>, Seq<char>)>) -> bool {
    forall|i: int| 0 <= i < roots.len() ==> (#[trigger] root_entry(m, roots[i].0, roots[i].1)) is Some
}

/// The three maps of the plan, filled in root order (a later root replaces
/// an earlier entry of the same key).
pub open spec fn planned(m: Manifest, roots: Seq<(Seq<char>, Seq<char>)>) -> (
    Map<Seq<char>, Seq<char>>,
    Map<Seq<char>, Seq<char>>,
    Map<Seq<char>, Seq<char>>,
)
    decreases roots.len(),
{
    if roots.len() == 0 {
        (Map::empty(), Map::empty(), Map::empty())
    } else {
        let (specs, l2r, aliased) = planned(m, roots.drop_last());
        let (local, raw) = roots.last();
        match root_entry(m, local, raw) {
            Some((reg, range, is_alias)) => (
                specs.insert(reg, range),
                l2r.insert(local, reg),
                if is_alias {
                    aliased.insert(local, reg)
                } else {
                    aliased
                },
            ),
            None => (specs, l2r, aliased),
        }
    }
}

/// A root is planned with its override when the manifest has one for its
/// name, and with its declared spec otherwise: when that spec is a range,
/// the root contributes it under its own name.
pub proof fn lemma_root_spec_follows_override(m: Manifest, local: Seq<char>, raw: Seq<char>)
    ensures
        lookup_spec(m, seq![local]) matches Some(v) ==> (classify_spec(v) matches SpecModel::Range(r)
            ==> root_entry(m, local, raw) == Some((local, r, false))),
        lookup_spec(m, seq![local]) is None ==> (classify_spec(raw) matches SpecModel::Range(r)
            ==> root_entry(m, local, raw) == Some((local, r, false))),
{
}

/// The last root is planned with the range its override gives, whatever
/// range it declares: with an override `v` for its name that is a range,
/// the solver's root asks for `v` under that name.
pub proof fn lemma_last_root_planned_with_override(
    m: Manifest,
    roots: Seq<(Seq<char>, Seq<char>)>,
    v: Seq<char>,
)
    requires
        roots.len() > 0,
        lookup_spec(m, seq![roots.last().0]) == Some(v),
    ensures
        classify_spec(v) matches SpecModel::Range(r) ==> (planned(m, roots).0.contains_key(roots.last().0)
            && planned(m, roots).0[roots.last().0] == r),
{
    lemma_root_spec_follows_override(m, roots.last().0, roots.last().1);
}

pub open spec fn plan_view(p: ResolutionPlan) -> (
    Map<Seq<char>, Seq<char>>,
    Map<Seq<char>, Seq<char>>,
    Map<Seq<char>, Seq<char>>,
) {
    (text_map(p.registry_root_specs@), text_map(p.local_to_registry@), text_map(p.aliased_from@))
}

/// Classify the roots after overrides and plan the solver's root.
pub fn plan_roots(roots: &Vec<(String, String)>, overrides_source: &Manifest) -> (r: Result<RootPlan>)
    ensures
        all_registry(*overrides_source, text_pairs(roots@)) ==> (r matches Ok(RootPlan::AllRegistry(p))
            && plan_view(p) == planned(*overrides_source, text_pairs(roots@))),
        !all_registry(*overrides_source, text_pairs(roots@)) ==> r matches Ok(RootPlan::HasLocal),
{
    let ghost rs = text_pairs(roots@);
    let n = roots.len();
    let mut specs: StrMap<String> = StrMap::new();
    let mut l2r: StrMap<String> = StrMap::new();
    let mut aliased: StrMap<String> = StrMap::new();
    let mut i: usize = 0;
    assert((text_map(specs@), text_map(l2r@), text_map(aliased@)) =~= planned(
        *overrides_source,
        rs.take(0),
    ));
    while i < n
        invariant
            n == roots@.len(),
            rs == text_pairs(roots@),
            i <= n,
            forall|j: int|
                0 <= j < i ==> (#[trigger] root_entry(*overrides_source, rs[j].0, rs[j].1)) is Some,
            (text_map(specs@), text_map(l2r@), text_map(aliased@)) == planned(
                *overrides_source,
                rs.take(i as int),
            ),
        decreases n - i,
    {
        proof {
            assert(rs.take(i + 1).drop_last() =~= rs.take(i as int));
            assert(rs.take(i + 1).last() == rs[i as int]);
        }
        let local = &roots[i].0;
        let raw = &roots[i].1;
        assert(rs[i as int] == (local@, raw@));
        let mut path: Vec<String> = Vec::new();
        path.push(local.clone());
        assert(path_view(path@) =~= seq![local@]);
        let effective = match lookup_with_path(overrides_source, &path) {
            Some(v) => v,
            None => raw.clone(),
        };
        assert(effective@ == effective_spec(*overrides_source, local@, raw@));
        let spec = classify(effective.as_str());
        validate(&spec)?;
        let ghost sm = spec@;
        assert(root_entry(*overrides_source, local@, raw@) == match sm {
            SpecModel::Range(r) => Some((local@, r, false)),
            SpecModel::Alias { real_name, inner } => match *inner {
                SpecModel::Range(r) => Some((real_name, r, true)),
                _ => None,
            },
            _ => None,
        });
        match spec {
            DepSpec::Range(r) => {
                assert(sm == SpecModel::Range(r@));
                let ghost s0 = text_map(specs@);
                let ghost l0 = text_map(l2r@);
                specs.insert(local.clone(), r);
                l2r.insert(local.clone(), local.clone());
                assert(text_map(specs@) =~= s0.insert(local@, r@));
                assert(text_map(l2r@) =~= l0.insert(local@, local@));
            },
            DepSpec::Alias { real_name, inner } => {
                let ghost im = (*inner)@;
                assert(sm == SpecModel::Alias { real_name: real_name@, inner: Box::new(im) });
                match *inner {
                    DepSpec::Range(r) => {
                        assert(im == SpecModel::Range(r@));
                        let ghost s0 = text_map(specs@);
                        let ghost l0 = text_map(l2r@);
                        let ghost a0 = text_map(aliased@);
                        specs.insert(real_name.clone(), r);
                        l2r.insert(local.clone(), real_name.clone());
                        aliased.insert(local.clone(), real_name.clone());
                        assert(text_map(specs@) =~= s0.insert(real_name@, r@));
                        assert(text_map(l2r@) =~= l0.insert(local@, real_name@));
                        assert(text_map(aliased@) =~= a0.insert(local@, real_name@));
                    },
                    other => {
                        assert(!(other@ is Range));
                        assert(root_entry(*overrides_source, rs[i as int].0, rs[i as int].1) is None);
                        return Ok(RootPlan::HasLocal);
                    },
                }
            },
            _ => {
                assert(root_entry(*overrides_source, rs[i as int].0, rs[i as int].1) is None);
                return Ok(RootPlan::HasLocal);
            },
        }
        i = i + 1;
    }
    assert(rs.take(n as int) =~= rs);
    Ok(
        RootPlan::AllRegistry(
            ResolutionPlan { registry_root_specs: specs, local_to_registry: l2r, aliased_from: aliased },
        ),
    )
}

// ---------------------------------------------------------------------------
// Prefetching metadata
// ---------------------------------------------------------------------------

/// The dependency names of every version of a package, versions in key
/// order and each version's dependencies in key order.
pub open spec fn dep_names(versions: Seq<(String, VersionInfo)>) -> Seq<Seq<char>>
    decreases versions.len(),
{
    if versions.len() == 0 {
        Seq::empty()
    } else {
        dep_names(versions.drop_last()) + versions.last().1.dependencies.key_seq()
    }
}

/// The dependency names that a package's metadata mentions.
pub open spec fn version_deps(m: PackageMetadata) -> Seq<Seq<char>> {
    dep_names(m.versions.pairs())
}

/// The queue after offering `names` in order: a name not yet queued is
/// appended.
pub open spec fn enqueue(q: Seq<Seq<char>>, names: Seq<Seq<char>>) -> Seq<Seq<char>>
    decreases names.len(),
{
    if names.len() == 0 {
        q
    } else {
        let p = enqueue(q, names.drop_last());
        if p.contains(names.last()) {
            p
        } else {
            p.push(names.last())
        }
    }
}

pub open spec fn distinct(s: Seq<Seq<char>>) -> bool {
    forall|i: int, j: int| 0 <= i < j < s.len() ==> s[i] != s[j]
}

proof fn lemma_enqueue(q: Seq<Seq<char>>, names: Seq<Seq<char>>)
    ensures
        q.len() <= enqueue(q, names).len(),
        forall|k: int| 0 <= k < q.len() ==> enqueue(q, names)[k] == q[k],
        forall|x: Seq<char>| #[trigger] enqueue(q, names).contains(x) <==> (q.contains(x) || names.contains(x)),
        distinct(q) ==> distinct(enqueue(q, names)),
    decreases names.len(),
{
    if names.len() > 0 {
        let p = enqueue(q, names.drop_last());
        lemma_enqueue(q, names.drop_last());
        let e = enqueue(q, names);
        assert forall|x: Seq<char>| #[trigger] e.contains(x) <==> (q.contains(x) || names.contains(x)) by {
            if names.drop_last().contains(x) {
                let k = choose|k: int| 0 <= k < names.drop_last().len() && #[trigger] names.drop_last()[k] == x;
                assert(names[k] == x);
            }
            if names.contains(x) {
                let k = choose|k: int| 0 <= k < names.len() && #[trigger] names[k] == x;
                if k < names.len() - 1 {
                    assert(names.drop_last()[k] == x);
                }
            }
            if !p.contains(names.last()) {
                if e.contains(x) {
                    let k = choose|k: int| 0 <= k < e.len() && #[trigger] e[k] == x;
                    if k < p.len() {
                        assert(p[k] == x);
                    }
                }
                if p.contains(x) {
                    let k = choose|k: int| 0 <= k < p.len() && #[trigger] p[k] == x;
                    assert(e[k] == x);
                }
                if x == names.last() {
                    assert(e[p.len() as int] == x);
                }
            }
        }
    }
}

/// The breadth-first fetch of every package name the solver may see, each
/// fetched once: `next_name` says which package to fetch, `provide` hands
/// its metadata back.
#[derive(Debug)]
pub struct Prefetch {
    queue: Vec<String>,
    head: usize,
    seen: StrMap<bool>,
    cache: StrMap<PackageMetadata>,
}

impl Prefetch {
    /// The names queued so far, in order.
    pub closed spec fn queue_view(&self) -> Seq<Seq<char>> {
        self.queue@.map_values(|s: String| s@)
    }

    /// How many of them have been fetched.
    pub closed spec fn fetched_count(&self) -> nat {
        self.head as nat
    }

    /// The metadata fetched so far, by name.
    pub closed spec fn cache_map(&self) -> Map<Seq<char>, PackageMetadata> {
        self.cache@
    }

    /// The state is consistent: each name is queued once, the fetched ones
    /// are the first `fetched_count` names, and every dependency name of a
    /// fetched package is queued.
    pub open spec fn wf(&self) -> bool {
        let q = self.queue_view();
        &&& distinct(q)
        &&& self.fetched_count() <= q.len()
        &&& forall|x: Seq<char>| #[trigger] self.cache_map().contains_key(x) <==> exists|k: int|
            0 <= k < self.fetched_count() && q[k] == x
        &&& forall|k: int, x: Seq<char>|
            0 <= k < self.fetched_count() && #[trigger] version_deps(self.cache_map()[q[k]]).contains(x)
                ==> #[trigger] q.contains(x)
        &&& self.seen_ok()
    }

    pub closed spec fn seen_ok(&self) -> bool {
        forall|x: Seq<char>| #[trigger] self.seen@.contains_key(x) <==> self.queue_view().contains(x)
    }

    /// Start from the root names of a plan, in key order.
    pub fn new(plan: &ResolutionPlan) -> (r: Prefetch)
        ensures
            r.wf(),
            r.queue_view() == plan.registry_root_specs.key_seq(),
            r.fetched_count() == 0,
    {
        let names = crate::registry::keys_of(&plan.registry_root_specs);
        let n = names.len();
        let mut queue: Vec<String> = Vec::new();
        let mut seen: StrMap<bool> = StrMap::new();
        let _count = plan.registry_root_specs.len();
        let ghost ks = plan.registry_root_specs.key_seq();
        let mut i: usize = 0;
        while i < n
            invariant
                n == names@.len(),
                names@.map_values(|s: String| s@) == ks,
                ks == plan.registry_root_specs.key_seq(),
                crate::strmap::keys_sorted(plan.registry_root_specs.pairs()),
                i <= n,
                queue@.map_values(|s: String| s@) == ks.take(i as int),
                forall|x: Seq<char>| #[trigger] seen@.contains_key(x) <==> ks.take(i as int).contains(x),
            decreases n - i,
        {
            let nm = names[i].clone();
            assert(nm@ == ks[i as int]);
            let ghost prev = queue@.map_values(|s: String| s@);
            queue.push(nm.clone());
            seen.insert(nm, true);
            assert(queue@.map_values(|s: String| s@) =~= prev.push(ks[i as int]));
            assert(ks.take(i + 1) =~= ks.take(i as int).push(ks[i as int]));
            assert forall|x: Seq<char>| #[trigger] seen@.contains_key(x) <==> ks.take(i + 1).contains(x) by {
                if ks.take(i + 1).contains(x) {
                    let k = choose|k: int| 0 <= k < i + 1 && #[trigger] ks.take(i + 1)[k] == x;
                    if k < i {
                        assert(ks.take(i as int)[k] == x);
                    }
                }
                if ks.take(i as int).contains(x) {
                    let k = choose|k: int| 0 <= k < i && #[trigger] ks.take(i as int)[k] == x;
                    assert(ks.take(i + 1)[k] == x);
                }
                if x == ks[i as int] {
                    assert(ks.take(i + 1)[i as int] == x);
                }
            }
            i = i + 1;
        }
        assert(ks.take(n as int) =~= ks);
        proof {
            assert forall|a: int, b: int| 0 <= a < b < ks.len() implies ks[a] != ks[b] by {
                let ps = plan.registry_root_specs.pairs();
                assert(crate::strmap::key_lt(ps[a].0@, ps[b].0@));
                crate::strmap::lemma_key_lt_asymmetric(ps[a].0@, ps[b].0@);
            }
        }
        let r = Prefetch { queue, head: 0, seen, cache: StrMap::new() };
        assert(r.seen_ok());
        r
    }

    /// The next package to fetch, if any.
    pub fn next_name(&self) -> (r: Option<String>)
        ensures
            match r {
                Some(n) => self.fetched_count() < self.queue_view().len() && n@
                    == self.queue_view()[self.fetched_count() as int],
                None => self.fetched_count() >= self.queue_view().len(),
            },
    {
        if self.head < self.queue.len() {
            let n = self.queue[self.head].clone();
            assert(self.queue_view()[self.head as int] == self.queue@[self.head as int]@);
            Some(n)
        } else {
            None
        }
    }

    /// Hand back the metadata of the package `next_name` gave: the names its
    /// versions depend on that are not queued yet are queued, in order.
    pub fn provide(&mut self, meta: PackageMetadata)
        requires
            old(self).wf(),
            old(self).fetched_count() < old(self).queue_view().len(),
        ensures
            final(self).wf(),
            final(self).queue_view() == enqueue(old(self).queue_view(), version_deps(meta)),
            final(self).fetched_count() == old(self).fetched_count() + 1,
            final(self).cache_map() == old(self).cache_map().insert(
                old(self).queue_view()[old(self).fetched_count() as int],
                meta,
            ),
    {
        let ghost q0 = self.queue_view();
        let ghost h = self.head as int;
        let name = self.queue[self.head].clone();
        assert(name@ == q0[h]);
        let nv = meta.versions.len();
        let ghost vps = meta.versions.pairs();
        let mut i: usize = 0;
        while i < nv
            invariant
                nv == vps.len(),
                vps == meta.versions.pairs(),
                i <= nv,
                self.queue@.map_values(|s: String| s@) == enqueue(q0, dep_names(vps.take(i as int))),
                forall|x: Seq<char>| #[trigger] self.seen@.contains_key(x) <==> self.queue@.map_values(|s: String| s@).contains(x),
                self.head == h,
                self.cache@ == old(self).cache@,
            decreases nv - i,
        {
            let v = meta.versions.value_at(i);
            let nd = v.dependencies.len();
            let ghost ks = v.dependencies.key_seq();
            let ghost base = dep_names(vps.take(i as int));
            proof {
                assert(vps.take(i + 1).drop_last() =~= vps.take(i as int));
                assert(vps.take(i + 1).last() == vps[i as int]);
                assert(dep_names(vps.take(i + 1)) == base + ks);
                assert(base + ks.take(0) =~= base);
            }
            let mut j: usize = 0;
            while j < nd
                invariant
                    nd == ks.len(),
                    ks == v.dependencies.key_seq(),
                    j <= nd,
                    self.queue@.map_values(|s: String| s@) == enqueue(q0, base + ks.take(j as int)),
                    forall|x: Seq<char>| #[trigger] self.seen@.contains_key(x) <==> self.queue@.map_values(|s: String| s@).contains(x),
                    self.head == h,
                    self.cache@ == old(self).cache@,
                decreases nd - j,
            {
                let d = v.dependencies.key_at(j);
                assert(d@ == ks[j as int]);
                let ghost names = base + ks.take(j + 1);
                assert(names.drop_last() =~= base + ks.take(j as int));
                assert(names.last() == d@);
                let ghost qv = self.queue@.map_values(|s: String| s@);
                if !self.seen.contains_key(d.as_str()) {
                    self.seen.insert(d.clone(), true);
                    self.queue.push(d.clone());
                    proof {
                        assert(self.queue@.map_values(|s: String| s@) =~= qv.push(d@));
                        assert forall|x: Seq<char>| #[trigger] self.seen@.contains_key(x) <==> self.queue@.map_values(|s: String| s@).contains(x) by {
                            let nq = self.queue@.map_values(|s: String| s@);
                            if qv.contains(x) {
                                let k = choose|k: int| 0 <= k < qv.len() && #[trigger] qv[k] == x;
                                assert(nq[k] == x);
                            }
                            if nq.contains(x) {
                                let k = choose|k: int| 0 <= k < nq.len() && #[trigger] nq[k] == x;
                                if k < qv.len() {
                                    assert(qv[k] == x);
                                }
                            }
                            if x == d@ {
                                assert(nq[qv.len() as int] == x);
                            }
                        }
                    }
                }
                j = j + 1;
            }
            assert(ks.take(nd as int) =~= ks);
            i = i + 1;
        }
        assert(vps.take(nv as int) =~= vps);
        let ghost deps = version_deps(meta);
        let ghost mv = meta;
        proof {
            lemma_enqueue(q0, deps);
        }
        let ql = self.queue.len();
        assert(h < ql);
        self.cache.insert(name, meta);
        self.head = self.head + 1;
        proof {
            let q1 = self.queue_view();
            assert(q1 == enqueue(q0, deps));
            assert(self.cache_map() == old(self).cache_map().insert(q0[h], mv));
            assert forall|k: int| 0 <= k < q0.len() implies q1[k] == q0[k] by {}
            assert forall|x: Seq<char>| #[trigger] self.cache_map().contains_key(x) <==> exists|k: int|
                0 <= k < self.fetched_count() && q1[k] == x by {
                if self.cache_map().contains_key(x) {
                    if x == q0[h] {
                        assert(q1[h] == x);
                    } else {
                        assert(old(self).cache_map().contains_key(x));
                        let k = choose|k: int| 0 <= k < h && q0[k] == x;
                        assert(q1[k] == x);
                    }
                }
                if exists|k: int| 0 <= k < self.fetched_count() && q1[k] == x {
                    let k = choose|k: int| 0 <= k < self.fetched_count() && q1[k] == x;
                    if k < h {
                        assert(q0[k] == x);
                        assert(old(self).cache_map().contains_key(x));
                    } else {
                        assert(x == q0[h]);
                    }
                }
            }
            assert forall|k: int, x: Seq<char>|
                0 <= k < self.fetched_count() && #[trigger] version_deps(self.cache_map()[q1[k]]).contains(x)
                implies #[trigger] q1.contains(x) by {
                if k < h {
                    assert(q1[k] == q0[k]);
                    assert(q0[k] != q0[h]);
                    assert(self.cache_map()[q1[k]] == old(self).cache_map()[q0[k]]);
                    assert(q0.contains(x));
                } else {
                    assert(q1[k] == q0[h]);
                    assert(self.cache_map()[q1[k]] == mv);
                }
            }
            assert forall|i: int, j: int| 0 <= i < j < q1.len() implies q1[i] != q1[j] by {}
            assert(self.seen_ok());
        }
    }

    /// The fetched metadata, by name, once every queued name is fetched:
    /// every root is there, and so is every name that a fetched package's
    /// versions depend on.
    pub fn finish(self) -> (r: StrMap<PackageMetadata>)
        requires
            self.wf(),
            self.fetched_count() == self.queue_view().len(),
        ensures
            r@ == self.cache_map(),
            forall|x: Seq<char>| self.queue_view().contains(x) ==> #[trigger] r@.contains_key(x),
            forall|n: Seq<char>, x: Seq<char>|
                #[trigger] r@.contains_key(n) && #[trigger] version_deps(r@[n]).contains(x)
                    ==> r@.contains_key(x),
    {
        proof {
            let q = self.queue_view();
            assert forall|x: Seq<char>| q.contains(x) implies #[trigger] self.cache_map().contains_key(x) by {
                let k = choose|k: int| 0 <= k < q.len() && #[trigger] q[k] == x;
            }
            assert forall|n: Seq<char>, x: Seq<char>|
                #[trigger] self.cache_map().contains_key(n) && #[trigger] version_deps(self.cache_map()[n]).contains(x)
                implies self.cache_map().contains_key(x) by {
                let k = choose|k: int| 0 <= k < self.fetched_count() && q[k] == n;
                assert(version_deps(self.cache_map()[q[k]]).contains(x));
                assert(q.contains(x));
                let j = choose|j: int| 0 <= j < q.len() && #[trigger] q[j] == x;
            }
        }
        self.cache
    }
}

// ---------------------------------------------------------------------------
// Answering the solver
// ---------------------------------------------------------------------------

pub open spec fn lit_root() -> Seq<char> {
    "$guroku-root"@
}

pub open spec fn zero_version() -> VersionModel {
    VersionModel { major: 0, minor: 0, patch: 0, build: Seq::empty(), pre: Seq::empty() }
}

/// The versions among `keys` that parse, in order.
pub open spec fn parsed_versions(keys: Seq<Seq<char>>) -> Seq<VersionModel>
    decreases keys.len(),
{
    if keys.len() == 0 {
        Seq::empty()
    } else {
        match semver_version_parse(keys.last()) {
            Some(v) => parsed_versions(keys.drop_last()).push(v),
            None => parsed_versions(keys.drop_last()),
        }
    }
}

/// The candidate versions of a package: `0.0.0` for the synthetic root,
/// the parseable version keys of its metadata, none without metadata.
pub open spec fn candidates_spec(cache: Map<Seq<char>, PackageMetadata>, name: Seq<char>) -> Seq<VersionModel> {
    if name == lit_root() {
        seq![zero_version()]
    } else if cache.contains_key(name) {
        parsed_versions(cache[name].versions.key_seq())
    } else {
        Seq::empty()
    }
}

pub open spec fn versions_view(v: Seq<Version>) -> Seq<VersionModel> {
    v.map_values(|x: Version| x@)
}

fn is_root(name: &str) -> (b: bool)
    ensures
        b == (name@ == lit_root()),
{
    str_eq(name, ROOT_PACKAGE)
}

/// The candidate versions of a package.
pub fn candidates_for(cache: &StrMap<PackageMetadata>, name: &str) -> (r: Vec<Version>)
    ensures
        versions_view(r@) == candidates_spec(cache@, name@),
{
    let mut out: Vec<Version> = Vec::new();
    if is_root(name) {
        out.push(NpmVersion::lowest().0);
        assert(versions_view(out@) =~= seq![zero_version()]);
        return out;
    }
    match cache.get(name) {
        Some(m) => {
            let keys = crate::registry::keys_of(&m.versions);
            let ghost ks = m.versions.key_seq();
            let n = keys.len();
            let mut i: usize = 0;
            assert(versions_view(out@) =~= parsed_versions(ks.take(0)));
            while i < n
                invariant
                    n == keys@.len(),
                    keys@.map_values(|s: String| s@) == ks,
                    i <= n,
                    versions_view(out@) == parsed_versions(ks.take(i as int)),
                decreases n - i,
            {
                proof {
                    assert(ks.take(i + 1).drop_last() =~= ks.take(i as int));
                    assert(ks.take(i + 1).last() == keys@[i as int]@);
                }
                match parse_version(keys[i].as_str()) {
                    Ok(v) => {
                        let ghost prev = versions_view(out@);
                        let ghost vv = v@;
                        out.push(v);
                        assert(versions_view(out@) =~= prev.push(vv));
                    },
                    Err(_) => {},
                }
                i = i + 1;
            }
            assert(ks.take(n as int) =~= ks);
            out
        },
        None => {
            assert(versions_view(out@) =~= Seq::<VersionModel>::empty());
            out
        },
    }
}

/// The candidates satisfying a range, in order.
pub open spec fn satisfying(cands: Seq<VersionModel>, range: Seq<char>) -> Seq<VersionModel>
    decreases cands.len(),
{
    if cands.len() == 0 {
        Seq::empty()
    } else if semver_satisfies(range, cands.last()) {
        satisfying(cands.drop_last(), range).push(cands.last())
    } else {
        satisfying(cands.drop_last(), range)
    }
}

/// The versions a dependency on `name` with an npm range admits, as the
/// solver sees them: any version (none) when the range does not parse or
/// no candidate is known, else exactly the known candidates that satisfy
/// it.
pub open spec fn admitted_spec(cache: Map<Seq<char>, PackageMetadata>, name: Seq<char>, range: Seq<char>) -> Option<Seq<VersionModel>> {
    if !semver_range_parses(range_source(range)) {
        None
    } else if candidates_spec(cache, name).len() == 0 {
        None
    } else {
        Some(satisfying(candidates_spec(cache, name), range_source(range)))
    }
}

/// The versions a dependency admits (`None`: any version).
pub fn admitted_versions(cache: &StrMap<PackageMetadata>, name: &str, npm_range: &str) -> (r: Option<Vec<Version>>)
    ensures
        match r {
            None => admitted_spec(cache@, name@, npm_range@) is None,
            Some(vs) => admitted_spec(cache@, name@, npm_range@) == Some(versions_view(vs@)),
        },
{
    let range = match parse_range(npm_range) {
        Ok(r) => r,
        Err(_) => {
            return None;
        },
    };
    let cands = candidates_for(cache, name);
    if cands.len() == 0 {
        return None;
    }
    let ghost cs = versions_view(cands@);
    let mut rest = cands;
    let total = rest.len();
    let mut out: Vec<Version> = Vec::new();
    let mut i: usize = 0;
    assert(versions_view(out@) =~= satisfying(cs.take(0), range@));
    while rest.len() > 0
        invariant
            i <= cs.len(),
            cs.len() == total,
            versions_view(rest@) == cs.skip(i as int),
            versions_view(out@) == satisfying(cs.take(i as int), range@),
        decreases rest.len(),
    {
        assert(versions_view(rest@).len() == cs.len() - i);
        let ghost before = rest@;
        assert(versions_view(before)[0] == before[0]@);
        assert(cs.skip(i as int)[0] == cs[i as int]);
        let v = rest.remove(0);
        assert(v@ == cs[i as int]);
        assert(rest@ == before.remove(0));
        proof {
            assert(cs.take(i + 1).drop_last() =~= cs.take(i as int));
            assert(cs.take(i + 1).last() == cs[i as int]);
        }
        if range_satisfies(&range, &v) {
            let ghost prev = versions_view(out@);
            let ghost vv = v@;
            out.push(v);
            assert(versions_view(out@) =~= prev.push(vv));
        }
        i = i + 1;
        assert forall|k: int| 0 <= k < versions_view(rest@).len() implies versions_view(rest@)[k] == cs.skip(i as int)[k] by {
            assert(rest@[k] == before[k + 1]);
            assert(versions_view(before)[k + 1] == cs.skip(i - 1)[k + 1]);
        }
        assert(versions_view(rest@) =~= cs.skip(i as int));
    }
    assert(cs.take(i as int) =~= cs);
    Some(out)
}

/// The index of the highest version (the last of equally high ones, as
/// `Iterator::max` picks).
pub open spec fn highest_index(vs: Seq<VersionModel>) -> Option<int>
    decreases vs.len(),
{
    if vs.len() == 0 {
        None
    } else {
        match highest_index(vs.drop_last()) {
            Some(b) => if version_lt(vs.last(), vs[b]) {
                Some(b)
            } else {
                Some(vs.len() - 1)
            },
            None => Some(vs.len() - 1),
        }
    }
}

/// The highest of the versions the solver's range leaves: no version is
/// higher.
pub proof fn lemma_highest_is_max(vs: Seq<VersionModel>)
    ensures
        vs.len() == 0 <==> highest_index(vs) is None,
        highest_index(vs) matches Some(b) ==> 0 <= b < vs.len() && forall|j: int|
            0 <= j < vs.len() ==> !version_lt(vs[b], #[trigger] vs[j]),
    decreases vs.len(),
{
    if vs.len() > 0 {
        let p = vs.drop_last();
        lemma_highest_is_max(p);
        let last = vs.last();
        match highest_index(p) {
            Some(b) => {
                lemma_version_lt_total(last, vs[b]);
                if version_lt(last, vs[b]) {
                    assert forall|j: int| 0 <= j < vs.len() implies !version_lt(vs[b], #[trigger] vs[j]) by {
                        if j < vs.len() - 1 {
                            assert(vs[j] == p[j]);
                        } else {
                            if version_lt(vs[b], vs[j]) {
                                lemma_version_lt_transitive(last, vs[b], last);
                                lemma_version_lt_irreflexive(last);
                            }
                        }
                    }
                } else {
                    assert forall|j: int| 0 <= j < vs.len() implies !version_lt(last, #[trigger] vs[j]) by {
                        if j < vs.len() - 1 {
                            assert(vs[j] == p[j]);
                            assert(!version_lt(vs[b], p[j]));
                            if version_lt(last, vs[j]) {
                                lemma_version_lt_total(vs[b], vs[j]);
                                if vs[b] == vs[j] {
                                } else if version_lt(vs[j], vs[b]) {
                                    lemma_version_lt_transitive(last, vs[j], vs[b]);
                                }
                                crate::version::lemma_version_equiv_lt(last, vs[b], vs[j]);
                            }
                        } else {
                            lemma_version_lt_irreflexive(last);
                        }
                    }
                }
            },
            None => {
                lemma_version_lt_irreflexive(last);
            },
        }
    }
}

/// Pick the highest version.
pub fn highest(vs: &Vec<Version>) -> (r: Option<usize>)
    ensures
        match r {
            Some(b) => highest_index(versions_view(vs@)) == Some(b as int),
            None => highest_index(versions_view(vs@)) is None,
        },
{
    let ghost all = versions_view(vs@);
    let n = vs.len();
    let mut best: Option<usize> = None;
    let mut i: usize = 0;
    while i < n
        invariant
            n == vs@.len(),
            all == versions_view(vs@),
            i <= n,
            match best {
                Some(b) => b < i && highest_index(all.take(i as int)) == Some(b as int),
                None => highest_index(all.take(i as int)) is None,
            },
        decreases n - i,
    {
        proof {
            let t = all.take(i + 1);
            assert(t.drop_last() =~= all.take(i as int));
            assert(t.last() == vs@[i as int]@);
            match best {
                Some(b) => {
                    assert(t[b as int] == vs@[b as int]@);
                },
                None => {},
            }
        }
        let replace = match best {
            Some(b) => !version_less(&vs[i], &vs[b]),
            None => true,
        };
        if replace {
            best = Some(i);
        }
        i = i + 1;
    }
    assert(all.take(n as int) =~= all);
    best
}

/// The package the solver decides next: the first one with the fewest
/// candidate versions in its range (the most constrained).
pub fn most_constrained(counts: &Vec<usize>) -> (r: usize)
    requires
        counts@.len() > 0,
    ensures
        r < counts@.len(),
        forall|j: int| 0 <= j < counts@.len() ==> counts@[r as int] <= #[trigger] counts@[j],
        forall|j: int| 0 <= j < r ==> counts@[r as int] < #[trigger] counts@[j],
{
    let n = counts.len();
    let mut best: usize = 0;
    let mut i: usize = 1;
    while i < n
        invariant
            n == counts@.len(),
            1 <= i <= n,
            best < i,
            forall|j: int| 0 <= j < i ==> counts@[best as int] <= #[trigger] counts@[j],
            forall|j: int| 0 <= j < best ==> counts@[best as int] < #[trigger] counts@[j],
        decreases n - i,
    {
        if counts[i] < counts[best] {
            best = i;
        }
        i = i + 1;
    }
    best
}

/// The dependencies of a solver package at a version: the roots' ranges
/// for the synthetic root; a version's declared dependencies when its
/// metadata has that version; unknown (none) otherwise.
pub open spec fn dependencies_spec(
    cache: Map<Seq<char>, PackageMetadata>,
    root_deps: Seq<(Seq<char>, Seq<char>)>,
    package: Seq<char>,
    version: VersionModel,
) -> Option<Seq<(Seq<char>, Seq<char>)>> {
    if package == lit_root() {
        Some(root_deps)
    } else if cache.contains_key(package) && cache[package].versions@.contains_key(version_text(version)) {
        Some(text_pairs(cache[package].versions@[version_text(version)].dependencies.pairs()))
    } else {
        None
    }
}

fn pairs_of(m: &StrMap<String>) -> (r: Vec<(String, String)>)
    ensures
        text_pairs(r@) == text_pairs(m.pairs()),
{
    let n = m.len();
    let mut out: Vec<(String, String)> = Vec::new();
    let mut i: usize = 0;
    while i < n
        invariant
            n == m.pairs().len(),
            i <= n,
            text_pairs(out@) == text_pairs(m.pairs().take(i as int)),
        decreases n - i,
    {
        let k = m.key_at(i).clone();
        let v = m.value_at(i).clone();
        let ghost prev = text_pairs(out@);
        out.push((k, v));
        assert(text_pairs(out@) =~= prev.push((k@, v@)));
        assert(text_pairs(m.pairs().take(i + 1)) =~= text_pairs(m.pairs().take(i as int)).push(
            (m.pairs()[i as int].0@, m.pairs()[i as int].1@),
        ));
        i = i + 1;
    }
    assert(m.pairs().take(n as int) =~= m.pairs());
    out
}

/// The dependencies (name, npm range) of a package at a version.
pub fn dependencies_for(
    cache: &StrMap<PackageMetadata>,
    root_deps: &StrMap<String>,
    package: &str,
    version: &Version,
) -> (r: Option<Vec<(String, String)>>)
    ensures
        match r {
            Some(d) => dependencies_spec(cache@, text_pairs(root_deps.pairs()), package@, version@)
                == Some(text_pairs(d@)),
            None => dependencies_spec(cache@, text_pairs(root_deps.pairs()), package@, version@) is None,
        },
{
    if is_root(package) {
        return Some(pairs_of(root_deps));
    }
    let key = version_to_string(version);
    match cache.get(package) {
        Some(m) => match m.versions.get(key.as_str()) {
            Some(info) => Some(pairs_of(&info.dependencies)),
            None => None,
        },
        None => None,
    }
}

// ---------------------------------------------------------------------------
// The solution
// ---------------------------------------------------------------------------

/// Registry name to declared name: each `(local, registry)` entry reversed,
/// a later entry replacing an earlier one.
pub open spec fn reversed(pairs: Seq<(Seq<char>, Seq<char>)>) -> Map<Seq<char>, Seq<char>>
    decreases pairs.len(),
{
    if pairs.len() == 0 {
        Map::empty()
    } else {
        reversed(pairs.drop_last()).insert(pairs.last().1, pairs.last().0)
    }
}

/// The metadata record of a solved package at its version.
pub open spec fn solved_info(cache: Map<Seq<char>, PackageMetadata>, pkg: Seq<char>, v: VersionModel) -> Option<VersionInfo> {
    if cache.contains_key(pkg) && cache[pkg].versions@.contains_key(version_text(v)) {
        Some(cache[pkg].versions@[version_text(v)])
    } else {
        None
    }
}

/// The name a solved registry package is recorded under: the declared name
/// of a root that maps to it, else its own.
pub open spec fn local_key(r2l: Map<Seq<char>, Seq<char>>, pkg: Seq<char>) -> Seq<char> {
    if r2l.contains_key(pkg) {
        r2l[pkg]
    } else {
        pkg
    }
}

/// The value of a resolved package: its record, local source and aliased
/// name.
pub open spec fn resolved_model(r: Resolved) -> (InfoModel, Option<Seq<char>>, Option<Seq<char>>) {
    (r.info@, crate::registry::opt_view(r.local_source), crate::registry::opt_view(r.aliased_from))
}

pub open spec fn solved_view(s: Seq<(String, Version)>) -> Seq<(Seq<char>, VersionModel)> {
    s.map_values(|p: (String, Version)| (p.0@, p.1@))
}

/// The resolution of a solution, in its order (a later package recorded
/// under the same name replaces an earlier one).
pub open spec fn materialised(
    solved: Seq<(Seq<char>, VersionModel)>,
    cache: Map<Seq<char>, PackageMetadata>,
    r2l: Map<Seq<char>, Seq<char>>,
    aliased: Map<Seq<char>, Seq<char>>,
) -> Map<Seq<char>, (InfoModel, Option<Seq<char>>, Option<Seq<char>>)>
    decreases solved.len(),
{
    if solved.len() == 0 {
        Map::empty()
    } else {
        let prev = materialised(solved.drop_last(), cache, r2l, aliased);
        let (pkg, v) = solved.last();
        if pkg == lit_root() {
            prev
        } else {
            match solved_info(cache, pkg, v) {
                Some(info) => {
                    let lk = local_key(r2l, pkg);
                    prev.insert(
                        lk,
                        (info@, None, if aliased.contains_key(lk) {
                            Some(aliased[lk])
                        } else {
                            None
                        }),
                    )
                },
                None => prev,
            }
        }
    }
}

/// Whether a solved package is the root or has a record in the cache.
pub open spec fn solved_ok(cache: Map<Seq<char>, PackageMetadata>, e: (Seq<char>, VersionModel)) -> bool {
    e.0 == lit_root() || solved_info(cache, e.0, e.1) is Some
}

pub open spec fn lit_missing() -> Seq<char> {
    "` but it's missing from the metadata cache"@
}

fn reverse_map(m: &StrMap<String>) -> (r: StrMap<String>)
    ensures
        text_map(r@) == reversed(text_pairs(m.pairs())),
{
    let n = m.len();
    let ghost ps = text_pairs(m.pairs());
    let mut out: StrMap<String> = StrMap::new();
    let mut i: usize = 0;
    assert(text_map(out@) =~= reversed(ps.take(0)));
    while i < n
        invariant
            n == m.pairs().len(),
            ps == text_pairs(m.pairs()),
            i <= n,
            text_map(out@) == reversed(ps.take(i as int)),
        decreases n - i,
    {
        proof {
            assert(ps.take(i + 1).drop_last() =~= ps.take(i as int));
            assert(ps.take(i + 1).last() == ps[i as int]);
        }
        let k = m.key_at(i).clone();
        let v = m.value_at(i).clone();
        let ghost before = text_map(out@);
        let ghost kv = k@;
        let ghost vv = v@;
        out.insert(v, k);
        assert(text_map(out@) =~= before.insert(vv, kv));
        i = i + 1;
    }
    assert(ps.take(n as int) =~= ps);
    out
}

/// Turn the solver's answer into a resolution: each solved package (but the
/// synthetic root) with its record from the cache, under its declared name.
/// A package missing from the cache is an error.
pub fn materialise(solved: &Vec<(String, Version)>, cache: &StrMap<PackageMetadata>, plan: &ResolutionPlan) -> (r: Result<Resolution>)
    ensures
        r is Ok <==> forall|i: int| 0 <= i < solved@.len() ==> #[trigger] solved_ok(cache@, solved_view(solved@)[i]),
        r matches Ok(res) ==> res.packages@.map_values(|x: Resolved| resolved_model(x)) == materialised(
            solved_view(solved@),
            cache@,
            reversed(text_pairs(plan.local_to_registry.pairs())),
            text_map(plan.aliased_from@),
        ),
        r matches Err(e) ==> exists|i: int|
            0 <= i < solved@.len() && !#[trigger] solved_ok(cache@, solved_view(solved@)[i]) && (forall|j: int|
                0 <= j < i ==> solved_ok(cache@, solved_view(solved@)[j])) && (e matches GurokuError::Other(m)
                && m@ == "pubgrub solved `"@ + solved@[i].0@ + "@"@ + version_text(solved@[i].1@)
                + lit_missing()),
{
    let r2l = reverse_map(&plan.local_to_registry);
    let ghost sv = solved_view(solved@);
    let ghost rmap = reversed(text_pairs(plan.local_to_registry.pairs()));
    let ghost amap = text_map(plan.aliased_from@);
    let n = solved.len();
    let mut packages: StrMap<Resolved> = StrMap::new();
    let mut i: usize = 0;
    assert(packages@.map_values(|x: Resolved| resolved_model(x)) =~= materialised(sv.take(0), cache@, rmap, amap));
    while i < n
        invariant
            n == solved@.len(),
            sv == solved_view(solved@),
            text_map(r2l@) == rmap,
            amap == text_map(plan.aliased_from@),
            i <= n,
            forall|j: int| 0 <= j < i ==> #[trigger] solved_ok(cache@, sv[j]),
            packages@.map_values(|x: Resolved| resolved_model(x)) == materialised(sv.take(i as int), cache@, rmap, amap),
        decreases n - i,
    {
        proof {
            assert(sv.take(i + 1).drop_last() =~= sv.take(i as int));
            assert(sv.take(i + 1).last() == sv[i as int]);
        }
        let pkg = &solved[i].0;
        let ver = &solved[i].1;
        assert(sv[i as int] == (pkg@, ver@));
        if is_root(pkg.as_str()) {
            i = i + 1;
            continue;
        }
        let key = version_to_string(ver);
        let found = match cache.get(pkg.as_str()) {
            Some(m) => m.versions.get(key.as_str()),
            None => None,
        };
        let info = match found {
            Some(info) => info.copy(),
            None => {
                proof {
                    reveal_strlit("pubgrub solved `");
                    reveal_strlit("@");
                    reveal_strlit("` but it's missing from the metadata cache");
                }
                let a = concat3("pubgrub solved `", pkg.as_str(), "@");
                let b = concat3(a.as_str(), key.as_str(), "` but it's missing from the metadata cache");
                assert(!solved_ok(cache@, sv[i as int]));
                return Err(GurokuError::Other(b));
            },
        };
        let local = match r2l.get(pkg.as_str()) {
            Some(l) => l.clone(),
            None => pkg.clone(),
        };
        assert(local@ == local_key(rmap, pkg@));
        let aliased_from = match plan.aliased_from.get(local.as_str()) {
            Some(a) => Some(a.clone()),
            None => None,
        };
        let resolved = Resolved { info, local_source: None, aliased_from };
        let ghost rm = resolved_model(resolved);
        let ghost before = packages@;
        let ghost lv = local@;
        packages.insert(local, resolved);
        assert(packages@.map_values(|x: Resolved| resolved_model(x)) =~= before.map_values(
            |x: Resolved| resolved_model(x),
        ).insert(lv, rm));
        i = i + 1;
    }
    assert(sv.take(n as int) =~= sv);
    Ok(Resolution { packages })
}

/// Why the solver gave up.
#[derive(Debug)]
pub enum SolveFailure {
    /// No solution; the solver's derivation report.
    NoSolution(String),
    /// Fetching the dependencies of a package failed.
    ErrorRetrievingDependencies(String),
    /// A package version depends on a package with an empty range.
    DependencyOnTheEmptySet { package: String, version: String, dependent: String },
    /// A package version depends on itself.
    SelfDependency { package: String, version: String },
    /// Choosing the next package version failed.
    ErrorChoosingPackageVersion(String),
    /// The solver was cancelled.
    ErrorInShouldCancel(String),
    /// Any other failure.
    Failure(String),
}

/// The error a solver failure is reported as. No solution is a
/// `ResolutionConflict` whose `requested_by` carries the solver's report;
/// the rest are `Other` with a `pubgrub:` message.
pub fn translate_failure(f: SolveFailure) -> (e: GurokuError)
    ensures
        match f {
            SolveFailure::NoSolution(report) => e matches GurokuError::ResolutionConflict {
                name,
                chosen,
                requested,
                requested_by,
            } && name@ == "<resolver>"@ && chosen@ == "<unsolvable>"@ && requested@
                == "<see report>"@ && requested_by@ == report@,
            SolveFailure::ErrorRetrievingDependencies(src) => e matches GurokuError::Other(m) && m@
                == "pubgrub: dependency fetch failed: "@ + src@,
            SolveFailure::DependencyOnTheEmptySet { package, version, dependent } => e matches GurokuError::Other(m)
                && m@ == "pubgrub: `"@ + package@ + "@"@ + version@ + "` declared `"@ + dependent@
                + "` with an empty range"@,
            SolveFailure::SelfDependency { package, version } => e matches GurokuError::Other(m)
                && m@ == "pubgrub: `"@ + package@ + "@"@ + version@ + "` depends on itself"@,
            SolveFailure::ErrorChoosingPackageVersion(src) => e matches GurokuError::Other(m) && m@
                == "pubgrub: choose_package_version failed: "@ + src@,
            SolveFailure::ErrorInShouldCancel(src) => e matches GurokuError::Other(m) && m@
                == "pubgrub: cancelled: "@ + src@,
            SolveFailure::Failure(msg) => e matches GurokuError::Other(m) && m@ == "pubgrub: "@
                + msg@,
        },
{
    match f {
        SolveFailure::NoSolution(report) => GurokuError::ResolutionConflict {
            name: "<resolver>".to_owned(),
            chosen: "<unsolvable>".to_owned(),
            requested: "<see report>".to_owned(),
            requested_by: report,
        },
        SolveFailure::ErrorRetrievingDependencies(src) => GurokuError::Other(
            concat2("pubgrub: dependency fetch failed: ", src.as_str()),
        ),
        SolveFailure::DependencyOnTheEmptySet { package, version, dependent } => {
            let a = concat3("pubgrub: `", package.as_str(), "@");
            let b = concat3(a.as_str(), version.as_str(), "` declared `");
            GurokuError::Other(concat3(b.as_str(), dependent.as_str(), "` with an empty range"))
        },
        SolveFailure::SelfDependency { package, version } => {
            let a = concat3("pubgrub: `", package.as_str(), "@");
            GurokuError::Other(concat3(a.as_str(), version.as_str(), "` depends on itself"))
        },
        SolveFailure::ErrorChoosingPackageVersion(src) => GurokuError::Other(
            concat2("pubgrub: choose_package_version failed: ", src.as_str()),
        ),
        SolveFailure::ErrorInShouldCancel(src) => GurokuError::Other(
            concat2("pubgrub: cancelled: ", src.as_str()),
        ),
        SolveFailure::Failure(msg) => GurokuError::Other(concat2("pubgrub: ", msg.as_str())),
    }
}

} // verus!
