//! Workspace discovery.
//!
//! `package.json#workspaces` lists globs, evaluated relative to the project
//! directory; every match that is a directory holding a `package.json` is a
//! workspace package. Evaluating the globs and reading the manifests is the
//! caller's; the patterns, and the list of workspaces (each root once, in
//! path order), are made here.
use crate::manifest::Manifest;
use crate::paths::{components, comps_view, join_path, path_components, path_join, Component, ComponentModel};
use crate::strmap::{key_less, key_lt, lemma_key_lt_irreflexive, lemma_key_lt_total, lemma_key_lt_transitive};
use vstd::prelude::*;

verus! {

/// One discovered workspace package.
#[derive(Debug)]
pub struct Workspace {
    pub root: String,
    pub manifest: Manifest,
}

impl Workspace {
    /// The package name from its manifest.
    pub fn name(&self) -> (r: Option<&str>)
        ensures
            match self.manifest.name {
                Some(n) => r matches Some(s) && s@ == n@,
                None => r is None,
            },
    {
        match &self.manifest.name {
            Some(n) => Some(n.as_str()),
            None => None,
        }
    }
}

/// The glob patterns to evaluate: each `workspaces` glob under `cwd`.
pub fn workspace_patterns(cwd: &str, manifest: &Manifest) -> (r: Vec<String>)
    ensures
        r@.len() == manifest.workspace_globs_spec().len(),
        forall|i: int|
            0 <= i < r@.len() ==> #[trigger] r@[i]@ == join_path(
                cwd@,
                manifest.workspace_globs_spec()[i],
            ),
{
    let globs = manifest.workspace_globs();
    let n = globs.len();
    let mut out: Vec<String> = Vec::new();
    let mut i: usize = 0;
    while i < n
        invariant
            n == globs@.len(),
            globs@.map_values(|s: String| s@) == manifest.workspace_globs_spec(),
            i <= n,
            out@.len() == i,
            forall|j: int|
                0 <= j < i ==> #[trigger] out@[j]@ == join_path(
                    cwd@,
                    manifest.workspace_globs_spec()[j],
                ),
        decreases n - i,
    {
        assert(globs@.map_values(|s: String| s@)[i as int] == globs@[i as int]@);
        out.push(path_join(cwd, globs[i].as_str()));
        i = i + 1;
    }
    out
}

// ---------------------------------------------------------------------------
// Path order
// ---------------------------------------------------------------------------

/// The rank of a component's kind in `std::path::Component`'s order.
pub open spec fn comp_rank(c: ComponentModel) -> int {
    match c {
        ComponentModel::RootDir => 0,
        ComponentModel::CurDir => 1,
        ComponentModel::ParentDir => 2,
        ComponentModel::Normal(_) => 3,
    }
}

/// The order of components: by kind, then normal components by name.
pub open spec fn comp_lt(a: ComponentModel, b: ComponentModel) -> bool {
    if comp_rank(a) != comp_rank(b) {
        comp_rank(a) < comp_rank(b)
    } else {
        match (a, b) {
            (ComponentModel::Normal(x), ComponentModel::Normal(y)) => key_lt(x, y),
            _ => false,
        }
    }
}

/// The order of paths (`Path::cmp`): their components compared
/// lexicographically.
pub open spec fn comps_lt(a: Seq<ComponentModel>, b: Seq<ComponentModel>) -> bool
    decreases a.len(),
{
    if a.len() == 0 {
        b.len() > 0
    } else if b.len() == 0 {
        false
    } else if a[0] == b[0] {
        comps_lt(a.drop_first(), b.drop_first())
    } else {
        comp_lt(a[0], b[0])
    }
}

proof fn lemma_comp_lt_order(a: ComponentModel, b: ComponentModel, c: ComponentModel)
    ensures
        !comp_lt(a, a),
        comp_lt(a, b) && comp_lt(b, c) ==> comp_lt(a, c),
        a == b || comp_lt(a, b) || comp_lt(b, a),
{
    if let ComponentModel::Normal(x) = a {
        lemma_key_lt_irreflexive(x);
        if let ComponentModel::Normal(y) = b {
            lemma_key_lt_total(x, y);
            if let ComponentModel::Normal(z) = c {
                if key_lt(x, y) && key_lt(y, z) {
                    lemma_key_lt_transitive(x, y, z);
                }
            }
        }
    }
}

pub proof fn lemma_comps_lt_irreflexive(a: Seq<ComponentModel>)
    ensures
        !comps_lt(a, a),
    decreases a.len(),
{
    if a.len() > 0 {
        lemma_comps_lt_irreflexive(a.drop_first());
    }
}

pub proof fn lemma_comps_lt_transitive(a: Seq<ComponentModel>, b: Seq<ComponentModel>, c: Seq<ComponentModel>)
    requires
        comps_lt(a, b),
        comps_lt(b, c),
    ensures
        comps_lt(a, c),
    decreases a.len(),
{
    if a.len() > 0 && b.len() > 0 && c.len() > 0 {
        lemma_comp_lt_order(a[0], b[0], c[0]);
        lemma_comp_lt_order(b[0], c[0], a[0]);
        lemma_comp_lt_order(c[0], a[0], b[0]);
        if a[0] == b[0] && b[0] == c[0] {
            lemma_comps_lt_transitive(a.drop_first(), b.drop_first(), c.drop_first());
        }
    }
}

pub proof fn lemma_comps_lt_total(a: Seq<ComponentModel>, b: Seq<ComponentModel>)
    ensures
        a == b || comps_lt(a, b) || comps_lt(b, a),
    decreases a.len(),
{
    if a.len() > 0 && b.len() > 0 {
        lemma_comp_lt_order(a[0], b[0], b[0]);
        if a[0] == b[0] {
            lemma_comps_lt_total(a.drop_first(), b.drop_first());
            if a.drop_first() == b.drop_first() {
                assert(a =~= seq![a[0]] + a.drop_first());
                assert(b =~= seq![b[0]] + b.drop_first());
            }
        }
    } else if a.len() == 0 && b.len() == 0 {
        assert(a =~= b);
    }
}

pub proof fn lemma_comps_lt_asymmetric(a: Seq<ComponentModel>, b: Seq<ComponentModel>)
    requires
        comps_lt(a, b),
    ensures
        !comps_lt(b, a),
        a != b,
{
    lemma_comps_lt_irreflexive(a);
    if comps_lt(b, a) {
        lemma_comps_lt_transitive(a, b, a);
    }
}

fn comp_same(a: &Component, b: &Component) -> (r: bool)
    ensures
        r == (a@ == b@),
{
    match (a, b) {
        (Component::RootDir, Component::RootDir) => true,
        (Component::CurDir, Component::CurDir) => true,
        (Component::ParentDir, Component::ParentDir) => true,
        (Component::Normal(x), Component::Normal(y)) => crate::text::str_eq(x.as_str(), y.as_str()),
        _ => false,
    }
}

fn comp_rank_of(c: &Component) -> (r: u8)
    ensures
        r == comp_rank(c@),
{
    match c {
        Component::RootDir => 0,
        Component::CurDir => 1,
        Component::ParentDir => 2,
        Component::Normal(_) => 3,
    }
}

fn comp_less(a: &Component, b: &Component) -> (r: bool)
    ensures
        r == comp_lt(a@, b@),
{
    let ra = comp_rank_of(a);
    let rb = comp_rank_of(b);
    if ra != rb {
        return ra < rb;
    }
    match (a, b) {
        (Component::Normal(x), Component::Normal(y)) => key_less(x.as_str(), y.as_str()),
        _ => false,
    }
}

proof fn lemma_comps_lt_skip(a: Seq<ComponentModel>, b: Seq<ComponentModel>, i: int)
    requires
        0 <= i <= a.len(),
        i <= b.len(),
        forall|j: int| 0 <= j < i ==> a[j] == b[j],
    ensures
        comps_lt(a, b) == comps_lt(a.skip(i), b.skip(i)),
    decreases i,
{
    if i > 0 {
        assert forall|j: int| 0 <= j < i - 1 implies a.drop_first()[j] == b.drop_first()[j] by {
            assert(a.drop_first()[j] == a[j + 1]);
            assert(b.drop_first()[j] == b[j + 1]);
        }
        lemma_comps_lt_skip(a.drop_first(), b.drop_first(), i - 1);
        assert(a.drop_first().skip(i - 1) =~= a.skip(i));
        assert(b.drop_first().skip(i - 1) =~= b.skip(i));
    } else {
        assert(a.skip(0) =~= a);
        assert(b.skip(0) =~= b);
    }
}

/// Compare two component lists: less, and equal.
fn comps_compare(a: &Vec<Component>, b: &Vec<Component>) -> (r: (bool, bool))
    ensures
        r.0 == comps_lt(comps_view(a@), comps_view(b@)),
        r.1 == (comps_view(a@) == comps_view(b@)),
{
    let ghost av = comps_view(a@);
    let ghost bv = comps_view(b@);
    let n = a.len();
    let m = b.len();
    let mut i: usize = 0;
    while i < n && i < m
        invariant
            av == comps_view(a@),
            bv == comps_view(b@),
            n == av.len(),
            m == bv.len(),
            i <= n,
            i <= m,
            forall|j: int| 0 <= j < i ==> av[j] == bv[j],
        decreases n - i,
    {
        assert(av[i as int] == a@[i as int]@);
        assert(bv[i as int] == b@[i as int]@);
        if !comp_same(&a[i], &b[i]) {
            proof {
                lemma_comps_lt_skip(av, bv, i as int);
                assert(av.skip(i as int)[0] == av[i as int]);
                assert(bv.skip(i as int)[0] == bv[i as int]);
            }
            return (comp_less(&a[i], &b[i]), false);
        }
        i = i + 1;
    }
    proof {
        lemma_comps_lt_skip(av, bv, i as int);
        if i == n && i == m {
            assert(av =~= bv);
        }
    }
    (i == n && i < m, i == n && i == m)
}

// ---------------------------------------------------------------------------
// The list of workspaces
// ---------------------------------------------------------------------------

#[verifier::opaque]
pub open spec fn root_comps(w: Workspace) -> Seq<ComponentModel> {
    components(w.root@)
}

/// Whether `found[j]` is the first match of its root (the same path, as
/// `Path` compares them).
pub open spec fn first_of_root(found: Seq<Workspace>, j: int) -> bool {
    forall|k: int| 0 <= k < j ==> root_comps(#[trigger] found[k]) != root_comps(found[j])
}

/// Roots strictly ascending in path order.
pub open spec fn sorted_by_root(r: Seq<Workspace>) -> bool {
    forall|i: int, j: int|
        0 <= i < j < r.len() ==> comps_lt(root_comps(#[trigger] r[i]), root_comps(#[trigger] r[j]))
}

/// Every listed workspace is the first match of its root.
#[verifier::opaque]
pub open spec fn from_first(found: Seq<Workspace>, r: Seq<Workspace>) -> bool {
    forall|i: int|
        #![trigger r[i]]
        0 <= i < r.len() ==> exists|j: int|
            0 <= j < found.len() && #[trigger] found[j] == r[i] && first_of_root(found, j)
}

/// Every match has its root listed.
#[verifier::opaque]
pub open spec fn covers(found: Seq<Workspace>, r: Seq<Workspace>) -> bool {
    forall|j: int|
        0 <= j < found.len() ==> exists|i: int|
            0 <= i < r.len() && root_comps(#[trigger] r[i]) == root_comps(#[trigger] found[j])
}

/// The workspaces in path order, each root once (its first match kept).
pub open spec fn dedup_sorted(found: Seq<Workspace>, r: Seq<Workspace>) -> bool {
    &&& sorted_by_root(r)
    &&& from_first(found, r)
    &&& covers(found, r)
}

/// Where `key` goes among sorted keys: at the first key it is not after;
/// `dup` when that key is equal to it.
fn find_slot(keys: &Vec<Vec<Component>>, key: &Vec<Component>) -> (r: (usize, bool))
    requires
        forall|i: int, j: int|
            0 <= i < j < keys@.len() ==> comps_lt(
                comps_view(#[trigger] keys@[i]@),
                comps_view(#[trigger] keys@[j]@),
            ),
    ensures
        r.0 <= keys@.len(),
        r.1 ==> r.0 < keys@.len() && comps_view(keys@[r.0 as int]@) == comps_view(key@),
        !r.1 ==> forall|i: int| 0 <= i < r.0 ==> comps_lt(comps_view(#[trigger] keys@[i]@), comps_view(key@)),
        !r.1 ==> r.0 == keys@.len() || comps_lt(comps_view(key@), comps_view(keys@[r.0 as int]@)),
{
    let ghost kv = comps_view(key@);
    let n = keys.len();
    let mut pos: usize = 0;
    while pos < n
        invariant
            n == keys@.len(),
            kv == comps_view(key@),
            pos <= n,
            forall|i: int| 0 <= i < pos ==> comps_lt(comps_view(#[trigger] keys@[i]@), kv),
        decreases n - pos,
    {
        let (less, same) = comps_compare(key, &keys[pos]);
        if same {
            return (pos, true);
        }
        if less {
            return (pos, false);
        }
        proof {
            lemma_comps_lt_total(kv, comps_view(keys@[pos as int]@));
        }
        pos = pos + 1;
    }
    (pos, false)
}

/// A workspace whose root is already listed changes nothing.
proof fn lemma_dedup_dup(pre: Seq<Workspace>, out: Seq<Workspace>, w: Workspace, d: int)
    requires
        dedup_sorted(pre, out),
        0 <= d < out.len(),
        root_comps(out[d]) == root_comps(w),
    ensures
        dedup_sorted(pre.push(w), out),
{
    let next = pre.push(w);
    assert(from_first(next, out)) by {
        reveal(from_first);
        assert forall|i: int| #![trigger out[i]] 0 <= i < out.len() implies exists|j: int|
            0 <= j < next.len() && #[trigger] next[j] == out[i] && first_of_root(next, j) by {
            let j = choose|j: int| 0 <= j < pre.len() && #[trigger] pre[j] == out[i] && first_of_root(pre, j);
            assert(next[j] == pre[j]);
            assert forall|k: int| 0 <= k < j implies root_comps(#[trigger] next[k]) != root_comps(next[j]) by {
                assert(next[k] == pre[k]);
            }
        }
    }
    assert(covers(next, out)) by {
        reveal(covers);
        assert forall|j: int| 0 <= j < next.len() implies exists|i: int|
            0 <= i < out.len() && root_comps(#[trigger] out[i]) == root_comps(#[trigger] next[j]) by {
            if j < pre.len() {
                assert(next[j] == pre[j]);
            } else {
                assert(root_comps(out[d]) == root_comps(next[j]));
            }
        }
    }
}

/// No listed root is `kv`, so no earlier match has root `kv`.
proof fn lemma_new_root_first(pre: Seq<Workspace>, out: Seq<Workspace>, w: Workspace)
    requires
        covers(pre, out),
        forall|i: int| 0 <= i < out.len() ==> root_comps(#[trigger] out[i]) != root_comps(w),
    ensures
        first_of_root(pre.push(w), pre.len() as int),
{
    reveal(covers);
    let next = pre.push(w);
    let t = pre.len() as int;
    assert forall|k: int| 0 <= k < t implies root_comps(#[trigger] next[k]) != root_comps(next[t]) by {
        assert(next[k] == pre[k]);
        let i = choose|i: int| 0 <= i < out.len() && root_comps(#[trigger] out[i]) == root_comps(#[trigger] pre[k]);
    }
}

/// A workspace with a new root goes in at its place in path order.
proof fn lemma_dedup_insert(pre: Seq<Workspace>, out: Seq<Workspace>, w: Workspace, p: int)
    requires
        dedup_sorted(pre, out),
        0 <= p <= out.len(),
        forall|i: int| 0 <= i < p ==> comps_lt(root_comps(#[trigger] out[i]), root_comps(w)),
        p < out.len() ==> comps_lt(root_comps(w), root_comps(out[p])),
    ensures
        dedup_sorted(pre.push(w), out.insert(p, w)),
{
    let next = pre.push(w);
    let res = out.insert(p, w);
    let kv = root_comps(w);
    let t = pre.len() as int;
    assert forall|i: int| 0 <= i < out.len() implies root_comps(#[trigger] out[i]) != kv by {
        if i < p {
            lemma_comps_lt_asymmetric(root_comps(out[i]), kv);
        } else {
            if i > p {
                lemma_comps_lt_transitive(kv, root_comps(out[p]), root_comps(out[i]));
            }
            lemma_comps_lt_asymmetric(kv, root_comps(out[i]));
        }
    }
    lemma_new_root_first(pre, out, w);
    assert forall|i: int, j: int| 0 <= i < j < res.len() implies comps_lt(
        root_comps(#[trigger] res[i]),
        root_comps(#[trigger] res[j]),
    ) by {
        if j < p {
            assert(res[i] == out[i] && res[j] == out[j]);
        } else if j == p {
            assert(res[i] == out[i]);
        } else if i < p {
            assert(res[i] == out[i]);
            assert(res[j] == out[j - 1]);
            if j - 1 > p {
                lemma_comps_lt_transitive(kv, root_comps(out[p]), root_comps(out[j - 1]));
            }
            lemma_comps_lt_transitive(root_comps(out[i]), kv, root_comps(out[j - 1]));
        } else if i == p {
            assert(res[j] == out[j - 1]);
            if j - 1 > p {
                lemma_comps_lt_transitive(kv, root_comps(out[p]), root_comps(out[j - 1]));
            }
        } else {
            assert(res[i] == out[i - 1]);
            assert(res[j] == out[j - 1]);
        }
    }
    assert(from_first(next, res)) by {
        reveal(from_first);
        assert forall|i: int| #![trigger res[i]] 0 <= i < res.len() implies exists|j: int|
            0 <= j < next.len() && #[trigger] next[j] == res[i] && first_of_root(next, j) by {
            if i == p {
                assert(next[t] == res[i]);
            } else {
                let oi = if i < p { i } else { i - 1 };
                assert(res[i] == out[oi]);
                let j = choose|j: int| 0 <= j < pre.len() && #[trigger] pre[j] == out[oi] && first_of_root(pre, j);
                assert(next[j] == pre[j]);
                assert forall|k: int| 0 <= k < j implies root_comps(#[trigger] next[k]) != root_comps(next[j]) by {
                    assert(next[k] == pre[k]);
                }
            }
        }
    }
    assert(covers(next, res)) by {
        reveal(covers);
        assert forall|j: int| 0 <= j < next.len() implies exists|i: int|
            0 <= i < res.len() && root_comps(#[trigger] res[i]) == root_comps(#[trigger] next[j]) by {
            if j < pre.len() {
                assert(next[j] == pre[j]);
                let i = choose|i: int| 0 <= i < out.len() && root_comps(#[trigger] out[i]) == root_comps(#[trigger] pre[j]);
                if i < p {
                    assert(res[i] == out[i]);
                } else {
                    assert(res[i + 1] == out[i]);
                }
            } else {
                assert(res[p] == w);
            }
        }
    }
}

/// The discovered workspaces, each root once (the first match), sorted by
/// path.
pub fn collect_workspaces(found: Vec<Workspace>) -> (r: Vec<Workspace>)
    ensures
        dedup_sorted(found@, r@),
{
    let ghost all = found@;
    let mut rest = found;
    let total = rest.len();
    let mut out: Vec<Workspace> = Vec::new();
    let mut keys: Vec<Vec<Component>> = Vec::new();
    let mut t: usize = 0;
    assert(dedup_sorted(all.take(0), out@)) by {
        reveal(from_first);
        reveal(covers);
    }
    while rest.len() > 0
        invariant
            t <= all.len(),
            all.len() == total,
            rest@ == all.skip(t as int),
            keys@.len() == out@.len(),
            forall|i: int| 0 <= i < out@.len() ==> comps_view(#[trigger] keys@[i]@) == root_comps(out@[i]),
            dedup_sorted(all.take(t as int), out@),
        decreases rest.len(),
    {
        assert(rest@.len() == all.len() - t);
        let w = rest.remove(0);
        assert(w == all[t as int]);
        let key = path_components(w.root.as_str());
        proof {
            reveal(root_comps);
        }
        let ghost pre = all.take(t as int);
        assert(all.take(t + 1) =~= pre.push(w));
        assert forall|i: int, j: int| 0 <= i < j < keys@.len() implies comps_lt(
            comps_view(#[trigger] keys@[i]@),
            comps_view(#[trigger] keys@[j]@),
        ) by {
            assert(comps_lt(root_comps(out@[i]), root_comps(out@[j])));
        }
        let (pos, dup) = find_slot(&keys, &key);
        if dup {
            proof {
                lemma_dedup_dup(pre, out@, w, pos as int);
            }
        } else {
            let ghost old_out = out@;
            let ghost old_keys = keys@;
            assert forall|i: int| 0 <= i < pos implies comps_lt(
                root_comps(#[trigger] old_out[i]),
                root_comps(w),
            ) by {
                assert(comps_lt(comps_view(keys@[i]@), comps_view(key@)));
            }
            out.insert(pos, w);
            keys.insert(pos, key);
            proof {
                lemma_dedup_insert(pre, old_out, w, pos as int);
                assert forall|i: int| 0 <= i < out@.len() implies comps_view(#[trigger] keys@[i]@) == root_comps(out@[i]) by {
                    if i > pos {
                        assert(out@[i] == old_out[i - 1]);
                        assert(keys@[i] == old_keys[i - 1]);
                    } else if i < pos {
                        assert(out@[i] == old_out[i]);
                        assert(keys@[i] == old_keys[i]);
                    }
                }
            }
        }
        t = t + 1;
        assert(rest@ =~= all.skip(t as int));
    }
    assert(all.take(t as int) =~= all);
    out
}

/// The line `guroku workspaces` prints for a workspace whose root is `rel`
/// relative to the project: `  <name>@<version>  (<rel>)`, with
/// `(unnamed)` and `?` for a missing name or version.
pub open spec fn workspace_line_spec(name: Option<Seq<char>>, version: Option<Seq<char>>, rel: Seq<char>) -> Seq<char> {
    "  "@ + (match name {
        Some(n) => n,
        None => "(unnamed)"@,
    }) + "@"@ + (match version {
        Some(v) => v,
        None => "?"@,
    }) + "  ("@ + rel + ")"@
}

pub fn workspace_line(w: &Workspace, rel: &str) -> (r: String)
    ensures
        r@ == workspace_line_spec(
            crate::registry::opt_view(w.manifest.name),
            crate::registry::opt_view(w.manifest.version),
            rel@,
        ),
{
    let name = match &w.manifest.name {
        Some(n) => n.as_str(),
        None => "(unnamed)",
    };
    let version = match &w.manifest.version {
        Some(v) => v.as_str(),
        None => "?",
    };
    let a = crate::text::concat3("  ", name, "@");
    let b = crate::text::concat3(a.as_str(), version, "  (");
    crate::text::concat3(b.as_str(), rel, ")")
}

/// The header of the list: `found <n> workspace package(s):`.
pub fn workspace_header(count: usize) -> (r: String)
    ensures
        r@ == "found "@ + crate::text::dec(count as nat) + " workspace package(s):"@,
{
    let n = crate::text::u64_to_string(count as u64);
    crate::text::concat3("found ", n.as_str(), " workspace package(s):")
}

} // verus!
