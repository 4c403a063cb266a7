//! npm tarballs: a `.tgz` whose entries live under a top-level `package/`
//! directory. The archive is read here and turned into the directories and
//! files to create under the destination, in archive order, with the leading
//! segment stripped. Extraction stops at the first entry that would land
//! outside the destination, or where the archive cannot be read further:
//! the plan then holds the entries before that point and the error, and the
//! caller writes those entries before failing.
use crate::error::{GurokuError, Result};
use crate::paths::{components, comps_view, path_components, Component, ComponentModel};
use vstd::prelude::*;

verus! {

/// One entry of an archive: its path, whether it is a directory, and its
/// contents.
#[derive(Debug)]
pub struct TarEntry {
    pub path: String,
    pub is_dir: bool,
    pub data: Vec<u8>,
}

pub open spec fn entry_view(e: TarEntry) -> (Seq<char>, bool, Seq<u8>) {
    (e.path@, e.is_dir, e.data@)
}

/// The entries that `flate2::read::GzDecoder` and `tar::Archive` read whole
/// from the bytes of a `.tgz`, in order, and whether reading stopped at a
/// failure after them.
pub uninterp spec fn tgz_read(bytes: Seq<u8>) -> (Seq<(Seq<char>, bool, Seq<u8>)>, bool);

/// Decompresses with `flate2::read::GzDecoder`, walks `tar::Archive::entries`
/// and reads each entry's path (lossily as text), type and contents, until
/// the archive ends or a read fails. Gives the entries read whole and the
/// message of the failure, if any.
#[verifier::external_body]
pub(crate) fn read_tgz(bytes: &[u8]) -> (r: (Vec<TarEntry>, Option<String>))
    ensures
        (r.0@.map_values(|e: TarEntry| entry_view(e)), r.1 is Some) == tgz_read(bytes@),
{
    let mut out = Vec::new();
    let mut read = || -> std::io::Result<()> {
        let mut archive = tar::Archive::new(flate2::read::GzDecoder::new(std::io::Cursor::new(bytes)));
        for entry in archive.entries()? {
            let mut entry = entry?;
            let path = entry.path()?.to_string_lossy().into_owned();
            let is_dir = entry.header().entry_type().is_dir();
            let mut data = Vec::new();
            std::io::Read::read_to_end(&mut entry, &mut data)?;
            out.push(TarEntry { path, is_dir, data });
        }
        Ok(())
    };
    let failure = read().err().map(|e| e.to_string());
    (out, failure)
}

/// What to create under the destination: a directory, or a file with its
/// contents, at a relative path given by its components.
#[derive(Debug)]
pub enum ExtractOp {
    CreateDir(Vec<String>),
    WriteFile(Vec<String>, Vec<u8>),
}

/// Safe components: plain names (or `.`), nothing that climbs out.
pub open spec fn is_safe(c: Seq<ComponentModel>) -> bool {
    forall|i: int| 0 <= i < c.len() ==> (#[trigger] c[i] is Normal || c[i] is CurDir)
}

/// The names of plain components.
pub open spec fn normal_names(c: Seq<ComponentModel>) -> Seq<Seq<char>> {
    c.map_values(|x: ComponentModel| match x {
        ComponentModel::Normal(n) => n,
        _ => seq!['.'],
    })
}

pub open spec fn names_view(v: Seq<String>) -> Seq<Seq<char>> {
    v.map_values(|s: String| s@)
}

/// The view of an operation: directory or file, path names, contents.
pub open spec fn op_view(o: ExtractOp) -> (bool, Seq<Seq<char>>, Seq<u8>) {
    match o {
        ExtractOp::CreateDir(p) => (true, names_view(p@), Seq::empty()),
        ExtractOp::WriteFile(p, d) => (false, names_view(p@), d@),
    }
}

/// The effect of one entry on the plan: entries whose path has no second
/// component are skipped; a path that climbs out is an error; otherwise the
/// entry is created under its path without the leading segment.
pub open spec fn plan_entry(e: (Seq<char>, bool, Seq<u8>)) -> Option<Option<(bool, Seq<Seq<char>>, Seq<u8>)>> {
    let comps = components(e.0);
    if comps.len() <= 1 {
        Some(None)
    } else {
        let rel = comps.skip(1);
        if !is_safe(rel) {
            None
        } else if e.1 {
            Some(Some((true, normal_names(rel), Seq::empty())))
        } else {
            Some(Some((false, normal_names(rel), e.2)))
        }
    }
}

/// The index of the first entry that would land outside the destination.
pub open spec fn first_unsafe_at(es: Seq<(Seq<char>, bool, Seq<u8>)>) -> Option<int>
    decreases es.len(),
{
    if es.len() == 0 {
        None
    } else {
        match first_unsafe_at(es.drop_last()) {
            Some(k) => Some(k),
            None => if plan_entry(es.last()) is None {
                Some(es.len() - 1)
            } else {
                None
            },
        }
    }
}

/// The directories and files that extraction creates: those of the entries
/// before the first unsafe one, in order.
pub open spec fn planned_ops(es: Seq<(Seq<char>, bool, Seq<u8>)>) -> Seq<(bool, Seq<Seq<char>>, Seq<u8>)>
    decreases es.len(),
{
    if es.len() == 0 {
        Seq::empty()
    } else {
        let prev = planned_ops(es.drop_last());
        if first_unsafe_at(es.drop_last()) is Some {
            prev
        } else {
            match plan_entry(es.last()) {
                Some(Some(op)) => prev.push(op),
                _ => prev,
            }
        }
    }
}

/// The names of the components after the first, when all are safe.
fn relative_names(comps: &Vec<Component>) -> (r: Option<Vec<String>>)
    requires
        comps@.len() >= 1,
    ensures
        is_safe(comps_view(comps@).skip(1)) ==> (r matches Some(v) && names_view(v@) == normal_names(
            comps_view(comps@).skip(1),
        )),
        !is_safe(comps_view(comps@).skip(1)) ==> r is None,
{
    let ghost rel = comps_view(comps@).skip(1);
    let n = comps.len();
    let mut out: Vec<String> = Vec::new();
    let mut i: usize = 1;
    while i < n
        invariant
            n == comps@.len(),
            1 <= i <= n,
            rel == comps_view(comps@).skip(1),
            forall|j: int| 0 <= j < i - 1 ==> (#[trigger] rel[j] is Normal || rel[j] is CurDir),
            names_view(out@) == normal_names(rel.take(i - 1)),
        decreases n - i,
    {
        proof {
            assert(rel[i - 1] == comps@[i as int]@);
        }
        let ghost prev = names_view(out@);
        match &comps[i] {
            Component::Normal(s) => {
                out.push(s.clone());
                proof {
                    assert(names_view(out@) =~= prev.push(s@));
                }
            },
            Component::CurDir => {
                out.push(".".to_owned());
                proof {
                    reveal_strlit(".");
                    assert("."@ =~= seq!['.']);
                    assert(names_view(out@) =~= prev.push(seq!['.']));
                }
            },
            _ => {
                proof {
                    assert(!(rel[i - 1] is Normal || rel[i - 1] is CurDir));
                }
                return None;
            },
        }
        proof {
            assert(rel.take(i as int) =~= rel.take(i - 1).push(rel[i - 1]));
            assert(normal_names(rel.take(i as int)) =~= normal_names(rel.take(i - 1)).push(
                normal_names(rel)[i - 1],
            ));
        }
        i = i + 1;
    }
    assert(rel.take(n - 1) =~= rel);
    Some(out)
}

/// The first unsafe entry is the first entry that would land outside the
/// destination: it is unsafe and every entry before it is not.
pub proof fn lemma_first_unsafe_at(es: Seq<(Seq<char>, bool, Seq<u8>)>)
    ensures
        match first_unsafe_at(es) {
            Some(k) => 0 <= k < es.len() && plan_entry(es[k]) is None && forall|j: int|
                0 <= j < k ==> !(#[trigger] plan_entry(es[j]) is None),
            None => forall|j: int| 0 <= j < es.len() ==> !(#[trigger] plan_entry(es[j]) is None),
        },
    decreases es.len(),
{
    if es.len() > 0 {
        let init = es.drop_last();
        lemma_first_unsafe_at(init);
        assert forall|j: int| 0 <= j < init.len() implies #[trigger] init[j] == es[j] by {}
        match first_unsafe_at(init) {
            Some(k) => {
                assert(es[k] == init[k]);
                assert forall|j: int| 0 <= j < k implies !(#[trigger] plan_entry(es[j]) is None) by {
                    assert(es[j] == init[j]);
                }
            },
            None => {
                assert forall|j: int| 0 <= j < es.len() - 1 implies !(#[trigger] plan_entry(es[j]) is None) by {
                    assert(es[j] == init[j]);
                }
            },
        }
    }
}

/// Once an unsafe entry is among the first `k`, later entries change
/// neither the first unsafe entry nor the operations.
proof fn lemma_unsafe_prefix_extends(es: Seq<(Seq<char>, bool, Seq<u8>)>, k: int)
    requires
        0 <= k <= es.len(),
        first_unsafe_at(es.take(k)) is Some,
    ensures
        first_unsafe_at(es) == first_unsafe_at(es.take(k)),
        planned_ops(es) == planned_ops(es.take(k)),
    decreases es.len() - k,
{
    if k < es.len() {
        assert(es.take(k + 1).drop_last() =~= es.take(k));
        lemma_unsafe_prefix_extends(es, k + 1);
    } else {
        assert(es.take(k) =~= es);
    }
}

pub open spec fn lit_unsafe_path() -> Seq<char> {
    "tarball contains unsafe path: "@
}

/// What extraction does: create `ops` in order under the destination, then
/// fail with `error` if there is one.
#[derive(Debug)]
pub struct ExtractPlan {
    pub ops: Vec<ExtractOp>,
    pub error: Option<GurokuError>,
}

pub open spec fn ops_view(v: Seq<ExtractOp>) -> Seq<(bool, Seq<Seq<char>>, Seq<u8>)> {
    v.map_values(|o: ExtractOp| op_view(o))
}

/// Turn the entries of an archive into the directories and files to create,
/// stripping the leading `package/` segment. The first entry that would land
/// outside the destination stops the plan with an error naming its path;
/// the entries before it are kept.
pub fn plan_extraction(entries: Vec<TarEntry>) -> (r: ExtractPlan)
    ensures
        ops_view(r.ops@) == planned_ops(entries@.map_values(|e: TarEntry| entry_view(e))),
        match first_unsafe_at(entries@.map_values(|e: TarEntry| entry_view(e))) {
            Some(k) => r.error matches Some(GurokuError::Tarball(m)) && m@ == lit_unsafe_path()
                + entries@[k].path@,
            None => r.error is None,
        },
{
    let ghost es = entries@.map_values(|e: TarEntry| entry_view(e));
    let n = entries.len();
    let mut out: Vec<ExtractOp> = Vec::new();
    let mut i: usize = 0;
    while i < n
        invariant
            n == entries@.len(),
            es == entries@.map_values(|e: TarEntry| entry_view(e)),
            i <= n,
            first_unsafe_at(es.take(i as int)) is None,
            planned_ops(es.take(i as int)) == ops_view(out@),
        decreases n - i,
    {
        let e = &entries[i];
        proof {
            assert(es.take(i + 1).drop_last() =~= es.take(i as int));
            assert(es.take(i + 1).last() == entry_view(*e));
        }
        let comps = path_components(e.path.as_str());
        if comps.len() > 1 {
            match relative_names(&comps) {
                None => {
                    proof {
                        assert(first_unsafe_at(es.take(i + 1)) == Some(i as int));
                        lemma_unsafe_prefix_extends(es, i as int + 1);
                        reveal_strlit("tarball contains unsafe path: ");
                    }
                    let m = crate::text::concat2("tarball contains unsafe path: ", e.path.as_str());
                    return ExtractPlan { ops: out, error: Some(GurokuError::Tarball(m)) };
                },
                Some(names) => {
                    let ghost prev = ops_view(out@);
                    if e.is_dir {
                        out.push(ExtractOp::CreateDir(names));
                    } else {
                        out.push(ExtractOp::WriteFile(names, e.data.clone()));
                    }
                    proof {
                        assert(ops_view(out@) =~= prev.push(op_view(out@.last())));
                    }
                },
            }
        }
        i = i + 1;
    }
    proof {
        assert(es.take(n as int) =~= es);
    }
    ExtractPlan { ops: out, error: None }
}

/// Read a `.tgz` and plan its extraction: the entries read whole before the
/// first unsafe one, then the error of that entry, or else of a failed read.
pub fn extract_plan(bytes: &[u8]) -> (r: ExtractPlan)
    ensures
        ops_view(r.ops@) == planned_ops(tgz_read(bytes@).0),
        match first_unsafe_at(tgz_read(bytes@).0) {
            Some(k) => r.error matches Some(GurokuError::Tarball(m)) && m@ == lit_unsafe_path()
                + tgz_read(bytes@).0[k].0,
            None => if tgz_read(bytes@).1 {
                r.error matches Some(GurokuError::Tarball(_))
            } else {
                r.error is None
            },
        },
{
    let (entries, failure) = read_tgz(bytes);
    let ghost es = entries@.map_values(|e: TarEntry| entry_view(e));
    let mut plan = plan_extraction(entries);
    proof {
        lemma_first_unsafe_at(es);
    }
    if plan.error.is_none() {
        if let Some(m) = failure {
            plan.error = Some(GurokuError::Tarball(m));
        }
    }
    plan
}

/// Where a planned entry may go: each of its path names is `.` or a plain
/// name.
pub open spec fn stays_inside(names: Seq<Seq<char>>) -> bool {
    forall|j: int| 0 <= j < names.len() ==> (#[trigger] names[j] == seq!['.'] || crate::paths::plain_name(names[j]))
}

/// Extraction never leaves the destination: every directory and file it
/// creates lies under it, through plain names only (no `..`, no root, no
/// `/` inside a name).
pub proof fn lemma_plan_stays_inside(es: Seq<(Seq<char>, bool, Seq<u8>)>)
    ensures
        forall|k: int| 0 <= k < planned_ops(es).len() ==> stays_inside(#[trigger] planned_ops(es)[k].1),
    decreases es.len(),
{
    if es.len() > 0 {
        lemma_plan_stays_inside(es.drop_last());
        let e = es.last();
        let comps = components(e.0);
        crate::paths::lemma_components_plain(e.0);
        if comps.len() > 1 {
            let rel = comps.skip(1);
            if is_safe(rel) {
                assert forall|j: int| 0 <= j < normal_names(rel).len() implies (#[trigger] normal_names(rel)[j] == seq!['.']
                    || crate::paths::plain_name(normal_names(rel)[j])) by {
                    assert(rel[j] == comps[j + 1]);
                    assert(rel[j] is Normal || rel[j] is CurDir);
                }
            }
        }
        let prev = planned_ops(es.drop_last());
        let ops = planned_ops(es);
        assert forall|k: int| 0 <= k < ops.len() implies stays_inside(#[trigger] ops[k].1) by {
            if k < prev.len() {
                assert(ops[k] == prev[k]);
            }
        }
    }
}

} // verus!
