//! npm audit: the installed versions are sent to the registry's bulk
//! advisories endpoint, `<registry>/-/npm/v1/security/advisories/bulk`.
//! The request body is a JSON map from package name to the list of its
//! installed versions; the answer maps package names to advisories. The
//! HTTP exchange is the caller's; the request, the reading of the answer
//! and the report are made here.
use crate::error::{GurokuError, Result};
use crate::git::args_view;
use crate::json::JsonValue;
use crate::lockfile::{Lockfile, PackageLock};
use crate::registry::{url_join, url_joined, RegistryClient};
use crate::strmap::StrMap;
use crate::text::{concat2, concat3, rsplit_once, rsplit_once_char, u64_to_string};
use vstd::prelude::*;

verus! {

/// One vulnerability advisory, as the registry returns it.
#[derive(Debug)]
pub struct Advisory {
    pub id: JsonValue,
    pub title: String,
    pub severity: String,
    pub url: String,
    pub vulnerable_versions: String,
    pub patched_versions: String,
}

/// The advisories found, by package name.
#[derive(Debug)]
pub struct AuditReport {
    pub findings: StrMap<Vec<Advisory>>,
}

/// The number of advisories in a list of findings.
pub open spec fn total(pairs: Seq<(String, Vec<Advisory>)>) -> nat
    decreases pairs.len(),
{
    if pairs.len() == 0 {
        0
    } else {
        total(pairs.drop_last()) + pairs.last().1@.len()
    }
}

proof fn lemma_total_prefix(pairs: Seq<(String, Vec<Advisory>)>, i: int)
    requires
        0 <= i <= pairs.len(),
    ensures
        total(pairs.take(i)) <= total(pairs),
    decreases pairs.len() - i,
{
    if i < pairs.len() {
        lemma_total_prefix(pairs, i + 1);
        assert(pairs.take(i + 1).drop_last() =~= pairs.take(i));
    } else {
        assert(pairs.take(i) =~= pairs);
    }
}

impl AuditReport {
    /// An empty report.
    pub fn new() -> (r: AuditReport)
        ensures
            r.findings.pairs().len() == 0,
    {
        AuditReport { findings: StrMap::new() }
    }

    pub fn is_empty(&self) -> (b: bool)
        ensures
            b == (self.findings.pairs().len() == 0),
    {
        self.findings.is_empty()
    }

    /// The number of advisories over all packages.
    pub fn count(&self) -> (n: usize)
        requires
            total(self.findings.pairs()) <= usize::MAX,
        ensures
            n == total(self.findings.pairs()),
    {
        let m = self.findings.len();
        let ghost pairs = self.findings.pairs();
        let mut sum: usize = 0;
        let mut i: usize = 0;
        while i < m
            invariant
                m == pairs.len(),
                pairs == self.findings.pairs(),
                total(pairs) <= usize::MAX,
                i <= m,
                sum == total(pairs.take(i as int)),
            decreases m - i,
        {
            proof {
                assert(pairs.take(i + 1).drop_last() =~= pairs.take(i as int));
                lemma_total_prefix(pairs, i + 1);
            }
            sum = sum + self.findings.value_at(i).len();
            i = i + 1;
        }
        assert(pairs.take(m as int) =~= pairs);
        sum
    }
}

// ---------------------------------------------------------------------------
// The request
// ---------------------------------------------------------------------------

/// The installed versions by package name: each lockfile key split at its
/// last `@`, in key order; keys without an `@` are skipped.
pub open spec fn groups(pairs: Seq<(String, PackageLock)>) -> Map<Seq<char>, Seq<Seq<char>>>
    decreases pairs.len(),
{
    if pairs.len() == 0 {
        Map::empty()
    } else {
        let prev = groups(pairs.drop_last());
        match rsplit_once(pairs.last().0@, '@') {
            Some((name, version)) => prev.insert(
                name,
                if prev.contains_key(name) {
                    prev[name].push(version)
                } else {
                    seq![version]
                },
            ),
            None => prev,
        }
    }
}

pub open spec fn groups_view(m: Map<Seq<char>, Vec<String>>) -> Map<Seq<char>, Seq<Seq<char>>> {
    m.map_values(|v: Vec<String>| args_view(v@))
}

/// Group the packages of a lockfile by name.
pub fn group_by_name(lock: &Lockfile) -> (r: StrMap<Vec<String>>)
    ensures
        groups_view(r@) == groups(lock.packages.pairs()),
{
    let n = lock.packages.len();
    let ghost pairs = lock.packages.pairs();
    let mut by_name: StrMap<Vec<String>> = StrMap::new();
    let mut i: usize = 0;
    assert(groups_view(by_name@) =~= groups(pairs.take(0)));
    while i < n
        invariant
            n == pairs.len(),
            pairs == lock.packages.pairs(),
            i <= n,
            groups_view(by_name@) == groups(pairs.take(i as int)),
        decreases n - i,
    {
        proof {
            assert(pairs.take(i + 1).drop_last() =~= pairs.take(i as int));
            assert(pairs.take(i + 1).last() == pairs[i as int]);
        }
        let key = lock.packages.key_at(i);
        match rsplit_once_char(key.as_str(), '@') {
            Some((name, version)) => {
                let ghost before = groups_view(by_name@);
                let ghost nv = name@;
                let ghost vv = version@;
                let mut list = match by_name.remove(name.as_str()) {
                    Some(v) => v,
                    None => Vec::new(),
                };
                assert(before.contains_key(nv) ==> args_view(list@) == before[nv]);
                assert(!before.contains_key(nv) ==> args_view(list@) =~= Seq::<Seq<char>>::empty());
                let ghost lv = args_view(list@);
                list.push(version);
                assert(args_view(list@) =~= lv.push(vv));
                let ghost mid = by_name@;
                by_name.insert(name, list);
                proof {
                    assert(groups_view(by_name@) =~= before.insert(
                        nv,
                        if before.contains_key(nv) {
                            before[nv].push(vv)
                        } else {
                            seq![vv]
                        },
                    ));
                }
            },
            None => {},
        }
        i = i + 1;
    }
    assert(pairs.take(n as int) =~= pairs);
    by_name
}

/// The JSON text that `serde_json::to_vec` makes of a map from names to
/// lists of versions.
pub uninterp spec fn groups_json(groups: Map<Seq<char>, Seq<Seq<char>>>) -> Seq<u8>;

pub open spec fn group_pairs(s: Seq<(String, Vec<String>)>) -> Seq<(Seq<char>, Seq<Seq<char>>)> {
    s.map_values(|p: (String, Vec<String>)| (p.0@, args_view(p.1@)))
}

/// The map that collecting pairs makes: a later pair replaces an earlier
/// one of the same key.
pub open spec fn pairs_map(s: Seq<(Seq<char>, Seq<Seq<char>>)>) -> Map<Seq<char>, Seq<Seq<char>>>
    decreases s.len(),
{
    if s.len() == 0 {
        Map::empty()
    } else {
        pairs_map(s.drop_last()).insert(s.last().0, s.last().1)
    }
}

/// Calls `serde_json::to_vec` on the `BTreeMap` collected from the pairs,
/// whose keys are distinct (so the map holds every pair). Its documentation
/// says serialization fails only when an implementation of `Serialize`
/// fails or a map has non-string keys; neither can happen for a map from
/// strings to lists of strings, so it succeeds.
#[verifier::external_body]
fn groups_to_json(pairs: &Vec<(String, Vec<String>)>) -> (r: core::result::Result<Vec<u8>, String>)
    requires
        forall|i: int, j: int| 0 <= i < j < pairs@.len() ==> pairs@[i].0@ != pairs@[j].0@,
    ensures
        r is Ok,
        r matches Ok(b) ==> b@ == groups_json(pairs_map(group_pairs(pairs@))),
{
    let map: std::collections::BTreeMap<&String, &Vec<String>> = pairs.iter().map(|(k, v)| (k, v)).collect();
    serde_json::to_vec(&map).map_err(|e| e.to_string())
}

fn group_entries(by_name: &StrMap<Vec<String>>) -> (r: Vec<(String, Vec<String>)>)
    ensures
        pairs_map(group_pairs(r@)) == groups_view(by_name@),
        forall|i: int, j: int| 0 <= i < j < r@.len() ==> r@[i].0@ != r@[j].0@,
{
    let n = by_name.len();
    let ghost ps = by_name.pairs();
    proof {
        by_name.lemma_view();
    }
    let mut out: Vec<(String, Vec<String>)> = Vec::new();
    let mut i: usize = 0;
    assert(pairs_map(group_pairs(out@)) =~= groups_view(crate::strmap::map_of(ps.take(0))));
    while i < n
        invariant
            n == ps.len(),
            ps == by_name.pairs(),
            crate::strmap::keys_sorted(ps),
            i <= n,
            pairs_map(group_pairs(out@)) == groups_view(crate::strmap::map_of(ps.take(i as int))),
            out@.len() == i,
            forall|a: int| 0 <= a < i ==> (#[trigger] out@[a]).0@ == ps[a].0@,
        decreases n - i,
    {
        let k = by_name.key_at(i).clone();
        let mut v: Vec<String> = Vec::new();
        crate::git::append_strings(&mut v, by_name.value_at(i));
        let ghost prev = group_pairs(out@);
        let ghost e = (k@, args_view(v@));
        out.push((k, v));
        assert(group_pairs(out@) =~= prev.push(e));
        assert(group_pairs(out@).drop_last() =~= prev);
        proof {
            crate::strmap::lemma_map_of_take_step(ps, i as int);
            assert(args_view(v@) == args_view(ps[i as int].1@));
            assert(groups_view(crate::strmap::map_of(ps.take(i + 1))) =~= groups_view(
                crate::strmap::map_of(ps.take(i as int)),
            ).insert(k@, args_view(v@)));
        }
        i = i + 1;
    }
    assert(ps.take(n as int) =~= ps);
    assert forall|a: int, b: int| 0 <= a < b < out@.len() implies out@[a].0@ != out@[b].0@ by {
        assert(out@[a].0@ == ps[a].0@ && out@[b].0@ == ps[b].0@);
        assert(crate::strmap::key_lt(ps[a].0@, ps[b].0@));
        crate::strmap::lemma_key_lt_asymmetric(ps[a].0@, ps[b].0@);
    }
    out
}

pub open spec fn lit_bulk_path() -> Seq<char> {
    "-/npm/v1/security/advisories/bulk"@
}

/// The request of an audit: where to post and what.
#[derive(Debug)]
pub struct AuditRequest {
    pub url: String,
    pub body: Vec<u8>,
}

/// The advisories request for a lockfile: none when it lists no package
/// (the report is then empty). The body is the JSON of the installed
/// versions by name; the URL is the bulk endpoint under the registry base.
pub fn audit_request(client: &RegistryClient, lockfile: &Lockfile) -> (r: Result<Option<AuditRequest>>)
    ensures
        r matches Ok(None) <==> groups(lockfile.packages.pairs()) == Map::<
            Seq<char>,
            Seq<Seq<char>>,
        >::empty(),
        r matches Ok(Some(req)) ==> url_joined(client.base_spec(), lit_bulk_path()) == Some(req.url@),
        r matches Ok(Some(req)) ==> req.body@ == groups_json(groups(lockfile.packages.pairs())),
        r matches Err(e) ==> (e is Url && url_joined(client.base_spec(), lit_bulk_path()) is None),
        url_joined(client.base_spec(), lit_bulk_path()) is None && groups(
            lockfile.packages.pairs(),
        ) != Map::<Seq<char>, Seq<Seq<char>>>::empty() ==> r is Err,
{
    let by_name = group_by_name(lockfile);
    if by_name.is_empty() {
        assert(groups(lockfile.packages.pairs()) =~= Map::<Seq<char>, Seq<Seq<char>>>::empty());
        return Ok(None);
    }
    proof {
        if groups(lockfile.packages.pairs()) == Map::<Seq<char>, Seq<Seq<char>>>::empty() {
            assert(by_name@ =~= Map::<Seq<char>, Vec<String>>::empty()) by {
                assert forall|k: Seq<char>| !by_name@.contains_key(k) by {
                    if by_name@.contains_key(k) {
                        assert(groups_view(by_name@).contains_key(k));
                    }
                }
            }
        }
    }
    let entries = group_entries(&by_name);
    let body = match groups_to_json(&entries) {
        Ok(b) => b,
        Err(e) => {
            return Err(GurokuError::Json(e));
        },
    };
    proof {
        reveal_strlit("-/npm/v1/security/advisories/bulk");
    }
    let url = match url_join(client.registry_base(), "-/npm/v1/security/advisories/bulk") {
        Ok(u) => u,
        Err(e) => {
            return Err(GurokuError::Url(e));
        },
    };
    Ok(Some(AuditRequest { url, body }))
}

// ---------------------------------------------------------------------------
// The answer and the report
// ---------------------------------------------------------------------------

/// The findings that name vulnerabilities: the names whose list of
/// advisories is not empty, with their lists.
pub open spec fn vulnerable(f: Map<Seq<char>, Vec<Advisory>>) -> Map<Seq<char>, Vec<Advisory>> {
    Map::new(|k: Seq<char>| f.contains_key(k) && f[k]@.len() > 0, |k: Seq<char>| f[k])
}

/// Keep the names that came back with at least one advisory.
fn only_vulnerable(f: StrMap<Vec<Advisory>>) -> (r: StrMap<Vec<Advisory>>)
    ensures
        r@ == vulnerable(f@),
{
    let keys = crate::registry::keys_of(&f);
    let _count = f.len();
    let ghost ks = f.key_seq();
    let ghost all = f@;
    proof {
        f.lemma_view();
        crate::strmap::lemma_map_of_sorted(f.pairs());
    }
    assert forall|k: Seq<char>| ks.contains(k) <==> all.contains_key(k) by {
        if ks.contains(k) {
            let q = choose|q: int| 0 <= q < ks.len() && #[trigger] ks[q] == k;
            assert(f.pairs()[q].0@ == k);
        }
        if all.contains_key(k) {
            let q = choose|q: int| 0 <= q < f.pairs().len() && (#[trigger] f.pairs()[q]).0@ == k;
            assert(ks[q] == k);
        }
    }
    assert forall|a: int, b: int| 0 <= a < b < ks.len() implies ks[a] != ks[b] by {
        let ps = f.pairs();
        assert(crate::strmap::key_lt(ps[a].0@, ps[b].0@));
        crate::strmap::lemma_key_lt_asymmetric(ps[a].0@, ps[b].0@);
    }
    let mut rest = f;
    let mut out: StrMap<Vec<Advisory>> = StrMap::new();
    let n = keys.len();
    let mut i: usize = 0;
    while i < n
        invariant
            n == keys@.len(),
            keys@.map_values(|s: String| s@) == ks,
            forall|k: Seq<char>| ks.contains(k) <==> all.contains_key(k),
            forall|a: int, b: int| 0 <= a < b < ks.len() ==> ks[a] != ks[b],
            i <= n,
            rest@ == all.remove_keys(ks.take(i as int).to_set()),
            out@ == Map::new(
                |k: Seq<char>| ks.take(i as int).contains(k) && all[k]@.len() > 0,
                |k: Seq<char>| all[k],
            ),
        decreases n - i,
    {
        let key = &keys[i];
        assert(key@ == ks[i as int]);
        assert(ks.contains(key@));
        assert(all.contains_key(key@));
        assert(!ks.take(i as int).contains(key@)) by {
            if ks.take(i as int).contains(key@) {
                let q = choose|q: int| 0 <= q < i && #[trigger] ks.take(i as int)[q] == key@;
                assert(ks[q] == ks[i as int]);
            }
        }
        let ghost before = out@;
        let taken = rest.remove(key.as_str());
        match taken {
            Some(v) => {
                assert(v == all[key@]);
                if v.len() > 0 {
                    out.insert(key.clone(), v);
                }
            },
            None => {
                assert(false);
            },
        }
        proof {
            let t1 = ks.take(i + 1);
            assert(t1 =~= ks.take(i as int).push(key@));
            assert forall|k: Seq<char>| t1.contains(k) <==> (ks.take(i as int).contains(k) || k == key@) by {
                if t1.contains(k) {
                    let q = choose|q: int| 0 <= q < i + 1 && #[trigger] t1[q] == k;
                    if q < i {
                        assert(ks.take(i as int)[q] == k);
                    }
                }
                if ks.take(i as int).contains(k) {
                    let q = choose|q: int| 0 <= q < i && #[trigger] ks.take(i as int)[q] == k;
                    assert(t1[q] == k);
                }
                if k == key@ {
                    assert(t1[i as int] == k);
                }
            }
            assert(rest@ =~= all.remove_keys(t1.to_set()));
            assert(out@ =~= Map::new(
                |k: Seq<char>| t1.contains(k) && all[k]@.len() > 0,
                |k: Seq<char>| all[k],
            ));
        }
        i = i + 1;
    }
    assert(ks.take(n as int) =~= ks);
    assert(out@ =~= vulnerable(all));
    out
}

/// What the advisories endpoint answered: on a non-success status,
/// `AuditFailed("HTTP <status> from advisories endpoint")`; a body that does
/// not read as advisories fails with its reader's message. The report keeps
/// the names that came back vulnerable (with at least one advisory).
pub fn audit_answer(
    success: bool,
    status_text: &str,
    findings: core::result::Result<StrMap<Vec<Advisory>>, String>,
) -> (r: Result<AuditReport>)
    ensures
        !success ==> (r matches Err(GurokuError::AuditFailed(m)) && m@ == "HTTP "@ + status_text@
            + " from advisories endpoint"@),
        success ==> match findings {
            Ok(f) => r matches Ok(rep) && rep.findings@ == vulnerable(f@),
            Err(e) => r matches Err(GurokuError::AuditFailed(m)) && m@ == e@,
        },
{
    if !success {
        return Err(
            GurokuError::AuditFailed(concat3("HTTP ", status_text, " from advisories endpoint")),
        );
    }
    match findings {
        Ok(f) => Ok(AuditReport { findings: only_vulnerable(f) }),
        Err(e) => Err(GurokuError::AuditFailed(e)),
    }
}

pub open spec fn plural_y(n: nat) -> Seq<char> {
    if n == 1 {
        "y"@
    } else {
        "ies"@
    }
}

/// The lines of one advisory: severity, package and vulnerable range, then
/// the title, URL and patched range when present.
pub open spec fn advisory_lines(name: Seq<char>, a: Advisory) -> Seq<Seq<char>> {
    let head = seq!["  ["@ + a.severity@ + "] "@ + name + "@"@ + a.vulnerable_versions@];
    let t = if a.title@.len() > 0 {
        head.push("        "@ + a.title@)
    } else {
        head
    };
    let u = if a.url@.len() > 0 {
        t.push("        "@ + a.url@)
    } else {
        t
    };
    if a.patched_versions@.len() > 0 {
        u.push("        patched: "@ + a.patched_versions@)
    } else {
        u
    }
}

pub open spec fn advisories_lines(name: Seq<char>, advs: Seq<Advisory>) -> Seq<Seq<char>>
    decreases advs.len(),
{
    if advs.len() == 0 {
        Seq::empty()
    } else {
        advisories_lines(name, advs.drop_last()) + advisory_lines(name, advs.last())
    }
}

pub open spec fn findings_lines(pairs: Seq<(String, Vec<Advisory>)>) -> Seq<Seq<char>>
    decreases pairs.len(),
{
    if pairs.len() == 0 {
        Seq::empty()
    } else {
        findings_lines(pairs.drop_last()) + advisories_lines(pairs.last().0@, pairs.last().1@)
    }
}

/// The printed report.
pub open spec fn report_spec(pairs: Seq<(String, Vec<Advisory>)>) -> Seq<Seq<char>> {
    if pairs.len() == 0 {
        seq!["no known vulnerabilities"@]
    } else {
        seq![
            "found "@ + crate::text::dec(total(pairs)) + " advisor"@ + plural_y(total(pairs))
                + " across "@ + crate::text::dec(pairs.len()) + " package(s):"@,
        ] + findings_lines(pairs)
    }
}

fn push_line(out: &mut Vec<String>, line: String)
    ensures
        final(out)@.map_values(|s: String| s@) == old(out)@.map_values(|s: String| s@).push(line@),
{
    out.push(line);
    assert(out@.map_values(|s: String| s@) =~= old(out)@.map_values(|s: String| s@).push(line@));
}

fn advisory_report(out: &mut Vec<String>, name: &str, a: &Advisory)
    ensures
        final(out)@.map_values(|s: String| s@) == old(out)@.map_values(|s: String| s@)
            + advisory_lines(name@, *a),
{
    let ghost start = old(out)@.map_values(|s: String| s@);
    let p1 = concat3("  [", a.severity.as_str(), "] ");
    let p2 = concat3(p1.as_str(), name, "@");
    let head = concat2(p2.as_str(), a.vulnerable_versions.as_str());
    push_line(out, head);
    if a.title.unicode_len() > 0 {
        push_line(out, concat2("        ", a.title.as_str()));
    }
    if a.url.unicode_len() > 0 {
        push_line(out, concat2("        ", a.url.as_str()));
    }
    if a.patched_versions.unicode_len() > 0 {
        push_line(out, concat2("        patched: ", a.patched_versions.as_str()));
    }
    assert(out@.map_values(|s: String| s@) =~= start + advisory_lines(name@, *a));
}

/// The report `guroku audit` prints: that nothing was found, or the count
/// of advisories and packages followed by each advisory.
pub fn report_lines(report: &AuditReport) -> (r: Vec<String>)
    requires
        total(report.findings.pairs()) <= usize::MAX,
    ensures
        r@.map_values(|s: String| s@) == report_spec(report.findings.pairs()),
{
    let mut out: Vec<String> = Vec::new();
    let ghost pairs = report.findings.pairs();
    if report.is_empty() {
        push_line(&mut out, "no known vulnerabilities".to_owned());
        assert(out@.map_values(|s: String| s@) =~= report_spec(pairs));
        return out;
    }
    let count = report.count();
    let packages = report.findings.len();
    let c = u64_to_string(count as u64);
    let word = if count == 1 {
        "y"
    } else {
        "ies"
    };
    let p = u64_to_string(packages as u64);
    let h1 = concat3("found ", c.as_str(), " advisor");
    let h2 = concat3(h1.as_str(), word, " across ");
    let header = concat3(h2.as_str(), p.as_str(), " package(s):");
    push_line(&mut out, header);
    let ghost hv = out@.map_values(|s: String| s@);
    assert(hv =~= seq![header@]);
    let n = report.findings.len();
    let mut i: usize = 0;
    assert(out@.map_values(|s: String| s@) =~= hv + findings_lines(pairs.take(0)));
    while i < n
        invariant
            n == pairs.len(),
            pairs == report.findings.pairs(),
            i <= n,
            out@.map_values(|s: String| s@) == hv + findings_lines(pairs.take(i as int)),
        decreases n - i,
    {
        proof {
            assert(pairs.take(i + 1).drop_last() =~= pairs.take(i as int));
            assert(pairs.take(i + 1).last() == pairs[i as int]);
        }
        let name = report.findings.key_at(i);
        let advs = report.findings.value_at(i);
        let m = advs.len();
        let mut j: usize = 0;
        let ghost base = out@.map_values(|s: String| s@);
        assert(advs@.take(0) =~= Seq::<Advisory>::empty());
        while j < m
            invariant
                m == advs@.len(),
                j <= m,
                out@.map_values(|s: String| s@) == base + advisories_lines(
                    name@,
                    advs@.take(j as int),
                ),
            decreases m - j,
        {
            proof {
                assert(advs@.take(j + 1).drop_last() =~= advs@.take(j as int));
                assert(advs@.take(j + 1).last() == advs@[j as int]);
            }
            advisory_report(&mut out, name.as_str(), &advs[j]);
            assert(out@.map_values(|s: String| s@) =~= base + advisories_lines(
                name@,
                advs@.take(j + 1),
            ));
            j = j + 1;
        }
        assert(advs@.take(m as int) =~= advs@);
        assert(out@.map_values(|s: String| s@) =~= hv + findings_lines(pairs.take(i + 1)));
        i = i + 1;
    }
    assert(pairs.take(n as int) =~= pairs);
    proof {
        reveal_strlit("y");
        reveal_strlit("ies");
    }
    assert(out@.map_values(|s: String| s@) =~= report_spec(pairs));
    out
}

/// What `guroku audit` returns: success when nothing was found, else
/// `Other("<n> known vulnerabilit(y|ies) reported")`.
pub fn audit_verdict(report: &AuditReport) -> (r: Result<()>)
    requires
        total(report.findings.pairs()) <= usize::MAX,
    ensures
        report.findings.pairs().len() == 0 ==> r is Ok,
        report.findings.pairs().len() > 0 ==> (r matches Err(GurokuError::Other(m)) && m@ == crate::text::dec(
            total(report.findings.pairs()),
        ) + " known vulnerabilit"@ + plural_y(total(report.findings.pairs())) + " reported"@),
{
    if report.is_empty() {
        return Ok(());
    }
    let count = report.count();
    let c = u64_to_string(count as u64);
    let word = if count == 1 {
        "y"
    } else {
        "ies"
    };
    let a = concat3(c.as_str(), " known vulnerabilit", word);
    Err(GurokuError::Other(concat2(a.as_str(), " reported")))
}

} // verus!
