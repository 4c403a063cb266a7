use guroku::error::GurokuError;
use guroku::http_cache::{etag_from_text, CachedMetadata};
use guroku::npmrc::{parse, Npmrc, DEFAULT_REGISTRY};
use guroku::registry::{scope_of, Dist, MetadataAnswer, PackageMetadata, RegistryClient, VersionInfo};
use guroku::resolver::{BfsResolver, ResolveStep};
use guroku::solver::{
    admitted_versions, candidates_for, dependencies_for, highest, materialise, most_constrained, plan_roots,
    translate_failure, NpmVersion, Prefetch, RootPlan, SolveFailure,
};
use guroku::manifest::Manifest;
use guroku::strmap::StrMap;
use guroku::version::{parse_version, version_to_string};

fn info(name: &str, version: &str, deps: &[(&str, &str)]) -> VersionInfo {
    let mut d = StrMap::new();
    for (k, v) in deps {
        d.insert(k.to_string(), v.to_string());
    }
    VersionInfo {
        name: name.to_string(),
        version: version.to_string(),
        dist: Dist {
            tarball: format!("https://registry.npmjs.org/{name}/-/{name}-{version}.tgz"),
            integrity: None,
            shasum: Some("00".to_string()),
        },
        dependencies: d,
    }
}

fn meta(name: &str, versions: Vec<VersionInfo>, latest: Option<&str>) -> PackageMetadata {
    let mut vs = StrMap::new();
    for v in versions {
        vs.insert(v.version.clone(), v);
    }
    let mut tags = StrMap::new();
    if let Some(l) = latest {
        tags.insert("latest".to_string(), l.to_string());
    }
    PackageMetadata { name: name.to_string(), versions: vs, dist_tags: tags }
}

#[test]
fn npmrc_parse_and_lookup() {
    let rc = Npmrc { entries: parse("registry=https://r.example/\n@acme:registry = \"https://acme.example/\"\n//r.example/:_authToken=SECRET-REDACTED\n# comment\n") };
    assert_eq!(rc.registry(), "https://r.example/");
    assert_eq!(rc.scoped_registry("@acme"), Some("https://acme.example/"));
    assert_eq!(rc.scoped_registry("other"), None);
    assert_eq!(rc.auth_token("r.example/"), Some("SECRET-REDACTED"));
    assert_eq!(rc.auth_token("elsewhere"), None);
    assert_eq!(Npmrc::new().registry(), DEFAULT_REGISTRY);
}

#[test]
fn project_npmrc_overrides_user() {
    let user = parse("registry=https://user.example/\na=1\n");
    let project = parse("registry=https://project.example/\n");
    let rc = Npmrc::layered(Some(user), Some(project));
    assert_eq!(rc.registry(), "https://project.example/");
    assert_eq!(rc.entries.get("a").map(|s| s.as_str()), Some("1"));
}

#[test]
fn scopes_of_names() {
    assert_eq!(scope_of("@acme/tool"), Some("acme".to_string()));
    assert_eq!(scope_of("lodash"), None);
}

#[test]
fn registry_base_must_parse() {
    assert!(RegistryClient::new("https://registry.npmjs.org").is_ok());
    assert!(matches!(RegistryClient::new("::nope"), Err(GurokuError::Url(_))));
}

#[test]
fn metadata_request_uses_scope_registry_and_etag() {
    let rc = Npmrc { entries: parse("@acme:registry=https://acme.example/\n//acme.example/:_authToken=tok\n") };
    let client = RegistryClient::from_npmrc(rc).unwrap();
    let cached = Some(CachedMetadata { body: b"{}".to_vec(), etag: Some("\"abc\"".to_string()) });
    let req = client.metadata_request("@acme/tool", &cached).unwrap();
    assert_eq!(req.url, "https://acme.example/@acme/tool");
    assert_eq!(req.bearer.as_deref(), Some("tok"));
    assert_eq!(req.if_none_match.as_deref(), Some("\"abc\""));
    let plain = client.metadata_request("lodash", &cached).unwrap();
    assert_eq!(plain.url, "https://registry.npmjs.org/lodash");
    assert_eq!(plain.bearer, None);
    let nocache = client.without_http_cache();
    assert_eq!(nocache.metadata_request("lodash", &cached).unwrap().if_none_match, None);
}

#[test]
fn metadata_answers() {
    let client = RegistryClient::with_default_registry().unwrap();
    let cached = Some(CachedMetadata { body: b"cached".to_vec(), etag: None });
    assert!(matches!(client.metadata_answer("x", 304, cached), Ok(MetadataAnswer::UseCached(b)) if b == b"cached".to_vec()));
    assert!(matches!(client.metadata_answer("x", 304, None), Ok(MetadataAnswer::FetchUncached)));
    assert!(matches!(client.metadata_answer("x", 404, None), Err(GurokuError::PackageNotFound { name }) if name == "x"));
    assert!(matches!(client.metadata_answer("x", 500, None), Ok(MetadataAnswer::HttpStatus(500))));
    assert!(matches!(client.metadata_answer("x", 200, None), Ok(MetadataAnswer::Accept { store_in_cache: true })));
}

#[test]
fn etag_text() {
    assert_eq!(etag_from_text("  \"v1\"\n"), Some("\"v1\"".to_string()));
    assert_eq!(etag_from_text("   "), None);
}

#[test]
fn metadata_resolve_exact_tag_and_range() {
    let m = meta("a", vec![info("a", "1.0.0", &[]), info("a", "1.2.0", &[]), info("a", "2.0.0", &[])], Some("1.0.0"));
    assert_eq!(m.resolve("2.0.0").unwrap().version, "2.0.0");
    assert_eq!(m.resolve("latest").unwrap().version, "1.0.0");
    assert_eq!(m.resolve("^1").unwrap().version, "1.2.0");
    assert!(matches!(m.resolve("^3"), Err(GurokuError::NoMatchingVersion { .. })));
}

fn run_bfs(roots: Vec<(String, String)>, registry: Vec<PackageMetadata>) -> Result<guroku::resolver::Resolution, GurokuError> {
    let mut r = BfsResolver::new(&roots, StrMap::new());
    let mut metas: Vec<Option<PackageMetadata>> = registry.into_iter().map(Some).collect();
    loop {
        match r.step()? {
            ResolveStep::Progress => {}
            ResolveStep::NeedMetadata { name } => {
                let pos = metas.iter().position(|m| m.as_ref().map(|m| m.name == name).unwrap_or(false)).expect("known package");
                let m = metas[pos].take().unwrap();
                r.provide_metadata(name, m);
            }
            ResolveStep::Done => return Ok(r.finish()),
            other => panic!("unexpected step {:?}", other),
        }
    }
}

#[test]
fn bfs_picks_highest_satisfying() {
    let a = meta("a", vec![info("a", "1.0.0", &[("b", "^1")]), info("a", "1.1.0", &[("b", "^1")])], None);
    let b = meta("b", vec![info("b", "1.0.0", &[]), info("b", "1.9.0", &[]), info("b", "2.0.0", &[])], None);
    let res = run_bfs(vec![("a".to_string(), "^1".to_string())], vec![a, b]).unwrap();
    assert_eq!(res.len(), 2);
    assert_eq!(res.packages.get("a").unwrap().info.version, "1.1.0");
    assert_eq!(res.packages.get("b").unwrap().info.version, "1.9.0");
}

#[test]
fn bfs_reports_conflict() {
    let a = meta("a", vec![info("a", "1.0.0", &[("c", "^2")])], None);
    let c = meta("c", vec![info("c", "1.0.0", &[]), info("c", "2.0.0", &[])], None);
    let roots = vec![("c".to_string(), "^1".to_string()), ("a".to_string(), "^1".to_string())];
    match run_bfs(roots, vec![c, a]) {
        Err(GurokuError::ResolutionConflict { name, chosen, requested, .. }) => {
            assert_eq!(name, "c");
            assert_eq!(chosen, "1.0.0");
            assert_eq!(requested, ">=2.0.0 <3.0.0-0");
        }
        other => panic!("unexpected {:?}", other.map(|r| r.len())),
    }
}

#[test]
fn solver_plan_and_prefetch_closure() {
    let roots = vec![("x".to_string(), "^1".to_string()), ("y".to_string(), "npm:real@^2".to_string())];
    let plan = match plan_roots(&roots, &Manifest::empty()).unwrap() {
        RootPlan::AllRegistry(p) => p,
        RootPlan::HasLocal => panic!("expected registry plan"),
    };
    assert_eq!(plan.registry_root_specs.get("real").map(|s| s.as_str()), Some("^2"));
    assert_eq!(plan.local_to_registry.get("y").map(|s| s.as_str()), Some("real"));
    assert_eq!(plan.aliased_from.get("y").map(|s| s.as_str()), Some("real"));

    let mut pf = Prefetch::new(&plan);
    let mut order = vec![];
    while let Some(name) = pf.next_name() {
        order.push(name.clone());
        let m = match name.as_str() {
            "real" => meta("real", vec![info("real", "2.0.0", &[("z", "^1")])], None),
            "x" => meta("x", vec![info("x", "1.0.0", &[("z", "^1"), ("real", "^2")])], None),
            "z" => meta("z", vec![info("z", "1.0.0", &[])], None),
            _ => panic!("unexpected fetch {name}"),
        };
        pf.provide(m);
    }
    assert_eq!(order, vec!["real".to_string(), "x".to_string(), "z".to_string()]);
    let cache = pf.finish();
    assert_eq!(cache.len(), 3);

    let local = vec![("l".to_string(), "file:../l".to_string())];
    assert!(matches!(plan_roots(&local, &Manifest::empty()), Ok(RootPlan::HasLocal)));
}

#[test]
fn solver_answers() {
    let mut cache = StrMap::new();
    cache.insert("a".to_string(), meta("a", vec![info("a", "1.0.0", &[("b", "^1")]), info("a", "1.5.0", &[]), info("a", "2.0.0", &[])], None));
    let c = candidates_for(&cache, "a");
    assert_eq!(c.len(), 3);
    assert_eq!(candidates_for(&cache, "$guroku-root").len(), 1);
    assert!(candidates_for(&cache, "missing").is_empty());
    let adm = admitted_versions(&cache, "a", "^1").unwrap();
    let texts: Vec<String> = adm.iter().map(version_to_string).collect();
    assert_eq!(texts, vec!["1.0.0".to_string(), "1.5.0".to_string()]);
    assert!(admitted_versions(&cache, "missing", "^1").is_none());
    assert!(admitted_versions(&cache, "a", ">>>").is_none());
    let i = highest(&c).unwrap();
    assert_eq!(version_to_string(&c[i]), "2.0.0");
    assert_eq!(most_constrained(&vec![3, 1, 4, 1]), 1);
    let deps = dependencies_for(&cache, &StrMap::new(), "a", &parse_version("1.0.0").unwrap()).unwrap();
    assert_eq!(deps, vec![("b".to_string(), "^1".to_string())]);
    assert!(dependencies_for(&cache, &StrMap::new(), "a", &parse_version("9.0.0").unwrap()).is_none());
}

#[test]
fn npm_version_bump_and_lowest() {
    assert_eq!(NpmVersion::lowest().to_text(), "0.0.0");
    let v = NpmVersion(parse_version("1.2.3-rc.1").unwrap());
    assert_eq!(v.bump().to_text(), "1.2.4");
}

#[test]
fn materialise_records_under_declared_names() {
    let roots = vec![("y".to_string(), "npm:real@^2".to_string())];
    let plan = match plan_roots(&roots, &Manifest::empty()).unwrap() {
        RootPlan::AllRegistry(p) => p,
        RootPlan::HasLocal => panic!("expected registry plan"),
    };
    let mut cache = StrMap::new();
    cache.insert("real".to_string(), meta("real", vec![info("real", "2.1.0", &[])], None));
    let solved = vec![
        ("$guroku-root".to_string(), NpmVersion::lowest().0),
        ("real".to_string(), parse_version("2.1.0").unwrap()),
    ];
    let res = materialise(&solved, &cache, &plan).unwrap();
    let r = res.packages.get("y").unwrap();
    assert_eq!(r.info.version, "2.1.0");
    assert_eq!(r.aliased_from.as_deref(), Some("real"));
    let missing = vec![("ghost".to_string(), parse_version("1.0.0").unwrap())];
    match materialise(&missing, &cache, &plan) {
        Err(GurokuError::Other(m)) => assert_eq!(m, "pubgrub solved `ghost@1.0.0` but it's missing from the metadata cache"),
        other => panic!("unexpected {:?}", other.map(|r| r.len())),
    }
}

#[test]
fn solver_failures_are_translated() {
    match translate_failure(SolveFailure::NoSolution("because".to_string())) {
        GurokuError::ResolutionConflict { name, requested_by, .. } => {
            assert_eq!(name, "<resolver>");
            assert_eq!(requested_by, "because");
        }
        other => panic!("unexpected {:?}", other),
    }
    match translate_failure(SolveFailure::SelfDependency { package: "a".to_string(), version: "1.0.0".to_string() }) {
        GurokuError::Other(m) => assert_eq!(m, "pubgrub: `a@1.0.0` depends on itself"),
        other => panic!("unexpected {:?}", other),
    }
}

#[test]
fn bfs_conflict_names_the_path() {
    let d = meta("d", vec![info("d", "1.0.0", &[]), info("d", "2.0.0", &[])], None);
    let a = meta("a", vec![info("a", "1.0.0", &[("b", "^1")])], None);
    let b = meta("b", vec![info("b", "1.0.0", &[("d", "^2")])], None);
    let roots = vec![("d".to_string(), "^1".to_string()), ("a".to_string(), "^1".to_string())];
    match run_bfs(roots, vec![d, a, b]) {
        Err(GurokuError::ResolutionConflict { name, requested_by, .. }) => {
            assert_eq!(name, "d");
            assert_eq!(requested_by, "a > b");
        }
        other => panic!("unexpected {:?}", other.map(|r| r.len())),
    }
}

#[test]
fn bfs_reports_invalid_record_version() {
    let mut bad = info("x", "1.0.0", &[]);
    bad.version = "bogus".to_string();
    let mut vs = StrMap::new();
    vs.insert("1.0.0".to_string(), bad);
    let m = PackageMetadata { name: "x".to_string(), versions: vs, dist_tags: StrMap::new() };
    match run_bfs(vec![("x".to_string(), "^1".to_string())], vec![m]) {
        Err(GurokuError::Other(msg)) => assert_eq!(msg, "package `x` has invalid version `bogus`"),
        other => panic!("unexpected {:?}", other.map(|r| r.len())),
    }
}

#[test]
fn resolver_choice() {
    assert!(guroku::solver::use_bfs_resolver(Some("bfs")));
    assert!(!guroku::solver::use_bfs_resolver(Some("pubgrub")));
    assert!(!guroku::solver::use_bfs_resolver(None));
}

#[test]
fn bfs_shared_dependency_meets_every_range() {
    let a = meta("a", vec![info("a", "1.0.0", &[("c", "^1.2")])], None);
    let b = meta("b", vec![info("b", "1.0.0", &[("c", "~1.4.0")])], None);
    let c = meta("c", vec![info("c", "1.2.0", &[]), info("c", "1.4.3", &[]), info("c", "1.5.0", &[])], None);
    let roots = vec![("a".to_string(), "^1".to_string()), ("b".to_string(), "^1".to_string())];
    // The first request for `c` settles it at 1.5.0: a later range that
    // 1.5.0 does not meet is a conflict, one that it meets is accepted.
    match run_bfs(roots, vec![a, b, c]) {
        Err(GurokuError::ResolutionConflict { name, chosen, requested_by, .. }) => {
            assert_eq!(name, "c");
            assert_eq!(chosen, "1.5.0");
            assert_eq!(requested_by, "b");
        }
        other => panic!("unexpected {:?}", other.map(|r| r.len())),
    }
    let a = meta("a", vec![info("a", "1.0.0", &[("c", "^1.2")])], None);
    let b = meta("b", vec![info("b", "1.0.0", &[("c", ">=1.4.0")])], None);
    let c = meta("c", vec![info("c", "1.2.0", &[]), info("c", "1.4.3", &[]), info("c", "1.5.0", &[])], None);
    let roots = vec![("a".to_string(), "^1".to_string()), ("b".to_string(), "^1".to_string())];
    let res = run_bfs(roots, vec![a, b, c]).unwrap();
    assert_eq!(res.packages.get("c").unwrap().info.version, "1.5.0");
}

#[test]
fn bfs_local_dependency_is_accepted_when_asked_for() {
    let roots = vec![("loc".to_string(), "file:../loc".to_string())];
    let mut r = BfsResolver::new(&roots, StrMap::new());
    assert!(r.is_awaiting_local());
    match r.step().unwrap() {
        ResolveStep::NeedLocal { name, path } => {
            assert_eq!(name, "loc");
            assert_eq!(path, "../loc");
        }
        other => panic!("unexpected step {:?}", other),
    }
    assert!(r.is_awaiting_local());
    r.accept_local(info("loc", "0.1.0", &[]), "../loc".to_string()).unwrap();
    assert!(!r.is_awaiting_local());
    assert!(matches!(r.step().unwrap(), ResolveStep::Done));
    let res = r.finish();
    assert_eq!(res.packages.get("loc").unwrap().local_source.as_deref(), Some("../loc"));

    let r = BfsResolver::new(&vec![("a".to_string(), "^1".to_string())], StrMap::new());
    assert!(!r.is_awaiting_local());
}
