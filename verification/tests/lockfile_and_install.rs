use base64::Engine;
use guroku::error::GurokuError;
use guroku::install::{
    add_entries, check_tarball, collect_downloads, collect_downloads_strict, exec_outcome, exec_plan,
    install_mode, lock_covers, lock_items, lockfile_from_resolution, parse_spec, pin_added, script_body,
    script_listing, ExecExit, InstallMode,
};
use guroku::integrity::{sha512_hex, verify};
use sha2::Digest;
use guroku::lockfile::{Lockfile, PackageLock, GENERATED_BY, LOCKFILE_VERSION};
use guroku::manifest::Manifest;
use guroku::registry::{Dist, VersionInfo};
use guroku::resolver::{Resolution, Resolved};
use guroku::strmap::StrMap;

fn info(name: &str, version: &str, deps: &[(&str, &str)]) -> VersionInfo {
    let mut d = StrMap::new();
    for (k, v) in deps {
        d.insert(k.to_string(), v.to_string());
    }
    VersionInfo {
        name: name.to_string(),
        version: version.to_string(),
        dist: Dist {
            tarball: format!("https://registry.npmjs.org/{name}/-/{name}-{version}.tgz"),
            integrity: Some("sha512-abc".to_string()),
            shasum: None,
        },
        dependencies: d,
    }
}

fn resolution(entries: Vec<(&str, VersionInfo)>) -> Resolution {
    let mut packages = StrMap::new();
    for (n, i) in entries {
        packages.insert(n.to_string(), Resolved { info: i, local_source: None, aliased_from: None });
    }
    Resolution { packages }
}

fn entry(url: &str) -> PackageLock {
    PackageLock { resolved: url.to_string(), integrity: None, dependencies: StrMap::new() }
}

#[test]
fn parse_spec_forms() {
    assert_eq!(parse_spec("lodash"), ("lodash".to_string(), "latest".to_string()));
    assert_eq!(parse_spec("lodash@4.17.21"), ("lodash".to_string(), "4.17.21".to_string()));
    assert_eq!(parse_spec("@scope/x"), ("@scope/x".to_string(), "latest".to_string()));
    assert_eq!(parse_spec("@scope/x@1"), ("@scope/x".to_string(), "1".to_string()));
}

#[test]
fn add_entries_parses_each() {
    let r = add_entries(&vec!["a@1".to_string(), "@s/b".to_string()]);
    assert_eq!(r, vec![("a".to_string(), "1".to_string()), ("@s/b".to_string(), "latest".to_string())]);
}

#[test]
fn lockfile_key_and_contains() {
    let mut l = Lockfile::new();
    assert_eq!(l.lockfile_version, LOCKFILE_VERSION);
    assert_eq!(l.generated_by, GENERATED_BY);
    assert_eq!(Lockfile::key("lodash", "4.17.21"), "lodash@4.17.21");
    l.insert("lodash", "4.17.21", entry("https://x/l.tgz"));
    assert!(l.contains("lodash", "4.17.21"));
    assert!(!l.contains("lodash", "4.17.20"));
}

#[test]
fn lockfile_version_mismatch() {
    let mut l = Lockfile::new();
    l.lockfile_version = 7;
    match l.checked() {
        Err(GurokuError::LockfileVersionMismatch { found, expected }) => {
            assert_eq!((found, expected), (7, 1));
        }
        other => panic!("unexpected {:?}", other.map(|_| ())),
    }
}

#[test]
fn written_lockfile_covers_its_roots() {
    let res = resolution(vec![
        ("@scope/pkg", info("@scope/pkg", "2.0.0", &[])),
        ("lodash", info("lodash", "4.17.21", &[("@scope/pkg", "^2.0.0"), ("gone", "^1")])),
    ]);
    let lock = lockfile_from_resolution(&res);
    assert!(lock.contains("lodash", "4.17.21"));
    assert!(lock.contains("@scope/pkg", "2.0.0"));
    let e = lock.packages.get("lodash@4.17.21").unwrap();
    assert_eq!(e.resolved, "https://registry.npmjs.org/lodash/-/lodash-4.17.21.tgz");
    assert_eq!(e.dependencies.get("@scope/pkg").map(|s| s.as_str()), Some("2.0.0"));
    assert!(e.dependencies.get("gone").is_none());
    let roots = vec![("lodash".to_string(), "^4".to_string()), ("@scope/pkg".to_string(), "^2".to_string())];
    assert!(lock_covers(&lock, &roots));
    let more = vec![("react".to_string(), "^18".to_string())];
    assert!(!lock_covers(&lock, &more));
    let prefix_only = vec![("@scope/pk".to_string(), "^2".to_string())];
    assert!(!lock_covers(&lock, &prefix_only));
}

#[test]
fn frozen_install_decisions() {
    let empty: Vec<(String, String)> = vec![];
    assert!(matches!(install_mode(&empty, true, None), Ok(InstallMode::NothingToDo)));
    let roots = vec![("a".to_string(), "^1".to_string())];
    assert!(matches!(install_mode(&roots, false, None), Ok(InstallMode::Resolve)));
    assert!(matches!(install_mode(&roots, true, None), Err(GurokuError::LockfileOutOfDate)));
    let mut l = Lockfile::new();
    l.insert("b", "1.0.0", entry("https://x/b.tgz"));
    assert!(matches!(install_mode(&roots, true, Some(&l)), Err(GurokuError::LockfileOutOfDate)));
    l.insert("a", "1.0.0", entry("https://x/a.tgz"));
    assert!(matches!(install_mode(&roots, true, Some(&l)), Ok(InstallMode::FromLock)));
}

#[test]
fn lock_items_parse_keys_and_urls() {
    let mut l = Lockfile::new();
    l.insert("@s/a", "1.0.0", entry("HTTPS://X.example/a.tgz"));
    let items = lock_items(&l).unwrap();
    assert_eq!(items.len(), 1);
    assert_eq!(items[0].name, "@s/a");
    assert_eq!(items[0].version, "1.0.0");
    assert_eq!(items[0].dist.tarball, "https://x.example/a.tgz");
}

#[test]
fn lock_items_malformed_key() {
    let mut l = Lockfile::new();
    l.packages.insert("noversion".to_string(), entry("https://x/a.tgz"));
    match lock_items(&l) {
        Err(GurokuError::Other(m)) => assert_eq!(m, "malformed lockfile key `noversion`"),
        other => panic!("unexpected {:?}", other.map(|_| ())),
    }
}

#[test]
fn lock_items_bad_url() {
    let mut l = Lockfile::new();
    l.insert("a", "1.0.0", entry("not a url"));
    assert!(matches!(lock_items(&l), Err(GurokuError::Url(_))));
}

#[test]
fn download_failures_are_collected() {
    let ok = vec![Ok(("a".to_string(), "/cas/a".to_string()))];
    let m = collect_downloads(&ok).unwrap();
    assert_eq!(m.get("a").map(|s| s.as_str()), Some("/cas/a"));
    let bad = vec![
        Err("boom".to_string()),
        Ok(("a".to_string(), "/cas/a".to_string())),
        Err("bang".to_string()),
    ];
    match collect_downloads(&bad) {
        Err(GurokuError::Other(m)) => assert_eq!(m, "2 package(s) failed to download: boom; bang"),
        other => panic!("unexpected {:?}", other.map(|_| ())),
    }
}

#[test]
fn strict_downloads_stop_at_first_error() {
    let rs = vec![
        Ok(("a".to_string(), "/p".to_string())),
        Err(GurokuError::Http("first".to_string())),
        Err(GurokuError::Http("second".to_string())),
    ];
    match collect_downloads_strict(rs) {
        Err(GurokuError::Http(m)) => assert_eq!(m, "first"),
        other => panic!("unexpected {:?}", other.map(|_| ())),
    }
}

#[test]
fn tarball_without_integrity_or_shasum_is_refused() {
    let mut i = info("a", "1.0.0", &[]);
    i.dist.integrity = None;
    match check_tarball(&i, b"bytes") {
        Err(GurokuError::IntegrityMismatch { detail, .. }) => {
            assert_eq!(detail, "no integrity or shasum field on registry record")
        }
        other => panic!("unexpected {:?}", other),
    }
    i.dist.shasum = Some("deadbeef".to_string());
    match check_tarball(&i, b"bytes") {
        Err(GurokuError::IntegrityMismatch { detail, .. }) => {
            assert_eq!(detail, "no integrity field on registry record (shasum is not checked)")
        }
        other => panic!("unexpected {:?}", other),
    }
}

#[test]
fn tarball_integrity_is_checked() {
    let data = b"hello tarball";
    let digest = sha2::Sha512::digest(data).to_vec();
    assert_eq!(sha512_hex(data), hex::encode(&digest));
    let good = format!("sha512-{}", base64::engine::general_purpose::STANDARD.encode(&digest));
    let mut i = info("a", "1.0.0", &[]);
    i.dist.integrity = Some(good.clone());
    assert!(check_tarball(&i, data).is_ok());
    assert!(matches!(check_tarball(&i, b"other"), Err(GurokuError::IntegrityMismatch { .. })));
    assert!(verify(data, &good, "a", "1").is_ok());
    assert!(matches!(verify(data, "sha1-xyz", "a", "1"), Err(GurokuError::UnsupportedIntegrity(a)) if a == "sha1"));
    assert!(matches!(verify(data, "nodash", "a", "1"), Err(GurokuError::InvalidIntegrity(_))));
}

#[test]
fn added_packages_are_pinned_with_caret() {
    let mut m = Manifest::empty();
    m.add_dependency("a", "latest");
    m.add_dependency("b", "latest");
    let res = resolution(vec![("a", info("a", "1.4.2", &[]))]);
    pin_added(&mut m, &vec![("a".to_string(), "latest".to_string()), ("b".to_string(), "latest".to_string())], &res);
    assert_eq!(m.dependencies.get("a").map(|s| s.as_str()), Some("^1.4.2"));
    assert_eq!(m.dependencies.get("b").map(|s| s.as_str()), Some("latest"));
}

#[test]
fn scripts_are_found_or_reported() {
    let mut m = Manifest::empty();
    assert_eq!(script_listing(&m), vec!["no scripts defined in package.json".to_string()]);
    m.scripts.insert("test".to_string(), "jest".to_string());
    assert_eq!(script_body(&m, "test").unwrap(), "jest");
    assert!(matches!(script_body(&m, "build"), Err(GurokuError::NoSuchScript { name }) if name == "build"));
    assert_eq!(
        script_listing(&m),
        vec!["available scripts:".to_string(), "  test\n    jest".to_string()]
    );
}

#[test]
fn exec_prefers_local_binary() {
    let p = exec_plan("/proj", "tsc", &vec!["-v".to_string()], true, true, "/usr/bin:/bin");
    assert_eq!(p.program, "/proj/node_modules/.bin/tsc");
    assert_eq!(p.args, vec!["-v".to_string()]);
    assert_eq!(p.path.as_deref(), Some("/proj/node_modules/.bin:/usr/bin:/bin"));
    let q = exec_plan("/proj", "git", &vec![], false, false, "/usr/bin");
    assert_eq!(q.program, "git");
    assert_eq!(q.path, None);
}

#[test]
fn exec_outcomes() {
    assert!(exec_outcome("x", ExecExit::Exited { success: true, code: Some(0) }).is_ok());
    assert!(matches!(
        exec_outcome("x", ExecExit::Exited { success: false, code: None }),
        Err(GurokuError::ScriptFailed { status: -1, .. })
    ));
    assert!(matches!(exec_outcome("x", ExecExit::NotFound), Err(GurokuError::BinNotFound { name }) if name == "x"));
    assert!(matches!(
        exec_outcome("x", ExecExit::SpawnFailed("denied".to_string())),
        Err(GurokuError::ScriptSpawnFailed { detail, .. }) if detail == "denied"
    ));
}
