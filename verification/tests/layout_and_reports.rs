use guroku::audit::{audit_answer, audit_verdict, group_by_name, report_lines, Advisory, AuditReport};
use guroku::cache::{cas_entry_under, metadata_cache_entry_under, metadata_etag_entry_under, package_dir_under, safe_segment};
use guroku::cli::{Cli, Command};
use guroku::error::GurokuError;
use guroku::git::{clone_plan, safe_ref, url_key};
use guroku::json::JsonValue;
use guroku::linker::{into_linked_packages, link_sources, link_target, lock_linked_packages};
use guroku::lockfile::{Lockfile, PackageLock};
use guroku::manifest::Manifest;
use guroku::overrides::{classify_key, lookup, lookup_with_path, merged, OverrideKind};
use guroku::paths::{path_components, path_join, Component};
use guroku::registry::{Dist, VersionInfo};
use guroku::resolver::{Resolution, Resolved};
use guroku::scripts::{run_in, run_in_with_args, script_outcome, search_path, shell_quote, ScriptExit};
use guroku::specs::GitRef;
use guroku::store::{marker_path, staging_dir};
use guroku::strmap::StrMap;
use guroku::tarball::{plan_extraction, ExtractOp, TarEntry};
use guroku::workspaces::{collect_workspaces, workspace_header, workspace_line, workspace_patterns, Workspace};

fn smap(pairs: &[(&str, &str)]) -> StrMap<String> {
    let mut m = StrMap::new();
    for (k, v) in pairs {
        m.insert(k.to_string(), v.to_string());
    }
    m
}

fn advisory(sev: &str, range: &str, title: &str) -> Advisory {
    Advisory {
        id: JsonValue::Number("1".to_string()),
        title: title.to_string(),
        severity: sev.to_string(),
        url: String::new(),
        vulnerable_versions: range.to_string(),
        patched_versions: ">=2.0.0".to_string(),
    }
}

#[test]
fn paths_join_and_components() {
    assert_eq!(path_join("/a", "b"), "/a/b");
    assert_eq!(path_join("/a/", "b"), "/a/b");
    assert_eq!(path_join("/a", "/abs"), "/abs");
    let c = path_components("/x//./y/../z");
    assert!(matches!(c[0], Component::RootDir));
    assert_eq!(c.len(), 5);
}

#[test]
fn cache_layout() {
    assert_eq!(safe_segment("@scope/name"), "@scope+name");
    assert_eq!(package_dir_under("/h/.guroku", "@s/p", "1.0.0"), "/h/.guroku/store/@s+p/1.0.0");
    assert_eq!(cas_entry_under("/h/.guroku", "abcdef").unwrap(), "/h/.guroku/cas/ab/cdef");
    assert!(matches!(cas_entry_under("/h/.guroku", "abc"), Err(GurokuError::Other(m)) if m == "sha512 hex too short: `abc`"));
    assert!(matches!(guroku::cache::cas_entry(""), Err(GurokuError::Other(m)) if m == "sha512 hex too short: ``"));
    assert_eq!(metadata_cache_entry_under("/h/.guroku", "@s/p"), "/h/.guroku/cache/metadata/@s+p.json");
    assert_eq!(metadata_etag_entry_under("/h/.guroku", "p"), "/h/.guroku/cache/metadata/p.etag");
}

#[test]
fn store_paths() {
    assert_eq!(staging_dir("/cas/ab/cd"), "/cas/ab/cd.tmp");
    assert_eq!(marker_path("/cas/ab/cd"), "/cas/ab/cd/.guroku-cas-ready");
}

#[test]
fn git_plan() {
    assert_eq!(safe_ref("feature/x@1"), "feature_x_1");
    assert_eq!(safe_ref(".."), "__");
    assert_eq!(safe_ref("."), "_");
    assert_eq!(safe_ref(""), "_");
    assert_eq!(safe_ref("v1.0"), "v1.0");
    let key = url_key("https://example.com/r.git");
    assert_eq!(key.len(), 16);
    assert_ne!(key, url_key("https://example.com/other.git"));
    let p = clone_plan(&GitRef { url: "https://example.com/r.git".to_string(), revision: Some("v1".to_string()) }, "/g");
    assert_eq!(p.target, format!("/g/{}/v1", key));
    assert_eq!(p.revision, "v1");
    assert_eq!(p.primary, vec!["clone", "--depth", "1", "--branch=v1", "https://example.com/r.git", p.target.as_str()]);
    assert!(p.checkout.is_some());
    let head = clone_plan(&GitRef { url: "https://example.com/r.git".to_string(), revision: None }, "/g");
    assert_eq!(head.revision, "HEAD");
    assert!(head.checkout.is_none());
}

#[test]
fn tar_plan_strips_top_dir_and_refuses_escape() {
    let ok = vec![
        TarEntry { path: "package/".to_string(), is_dir: true, data: vec![] },
        TarEntry { path: "package/index.js".to_string(), is_dir: false, data: b"x".to_vec() },
    ];
    let plan = plan_extraction(ok);
    assert!(plan.error.is_none());
    let files: Vec<Vec<String>> = plan
        .ops
        .iter()
        .filter_map(|o| match o {
            ExtractOp::WriteFile(p, _) => Some(p.clone()),
            _ => None,
        })
        .collect();
    assert_eq!(files, vec![vec!["index.js".to_string()]]);
    let bad = vec![
        TarEntry { path: "package/ok.js".to_string(), is_dir: false, data: vec![] },
        TarEntry { path: "package/../../etc/passwd".to_string(), is_dir: false, data: vec![] },
    ];
    let plan = plan_extraction(bad);
    assert_eq!(plan.ops.len(), 1);
    assert!(matches!(&plan.ops[0], ExtractOp::WriteFile(p, _) if p == &vec!["ok.js".to_string()]));
    assert!(matches!(plan.error, Some(GurokuError::Tarball(m)) if m == "tarball contains unsafe path: package/../../etc/passwd"));
}

#[test]
fn overrides_precedence() {
    let mut m = Manifest::empty();
    m.overrides = smap(&[("a", "1.0.0"), ("b>c", "2.0.0")]);
    m.resolutions = smap(&[("a", "9.9.9"), ("**/d", "3.0.0")]);
    assert_eq!(lookup(&m, "a").as_deref(), Some("1.0.0"));
    assert_eq!(lookup(&m, "d").as_deref(), Some("3.0.0"));
    assert_eq!(lookup(&m, "c").as_deref(), None);
    let path = vec!["b".to_string(), "c".to_string()];
    assert_eq!(lookup_with_path(&m, &path).as_deref(), Some("2.0.0"));
    let all = merged(&m);
    assert_eq!(all.get("a").map(|s| s.as_str()), Some("1.0.0"));
    assert_eq!(classify_key("**/x"), OverrideKind::Glob);
    assert_eq!(classify_key("a>b"), OverrideKind::Path);
    assert_eq!(classify_key("plain"), OverrideKind::Flat);
}

#[test]
fn manifest_dependencies_and_bins() {
    let mut m = Manifest::empty();
    m.add_dependency("b", "^1");
    m.add_dependency("a", "^2");
    m.dev_dependencies = smap(&[("z", "^3")]);
    assert_eq!(
        m.all_dependencies(),
        vec![("a".to_string(), "^2".to_string()), ("b".to_string(), "^1".to_string()), ("z".to_string(), "^3".to_string())]
    );
    m.scripts = smap(&[("t", "jest")]);
    assert!(m.remove_dependency("z"));
    assert_eq!(m.scripts.get("t").map(|s| s.as_str()), Some("jest"));
    assert!(!m.remove_dependency("nope"));
    m.name = Some("@scope/tool".to_string());
    m.bin = Some(JsonValue::Str("./cli.js".to_string()));
    assert_eq!(m.bin_entries(), vec![("tool".to_string(), "./cli.js".to_string())]);
    m.workspaces = Some(JsonValue::Array(vec![JsonValue::Str("packages/*".to_string()), JsonValue::Null]));
    assert_eq!(m.workspace_globs(), vec!["packages/*".to_string()]);
}

#[test]
fn scripts_commands() {
    assert_eq!(shell_quote("plain-word"), "plain-word");
    assert_eq!(shell_quote("it's"), "'it'\\''s'");
    assert_eq!(shell_quote(""), "''");
    assert_eq!(shell_quote("a b"), "'a b'");
    let c = run_in("/p", "test", "jest", &vec!["/p/node_modules/.bin".to_string()]);
    assert_eq!(c.program, "sh");
    assert_eq!(c.args, vec!["-c".to_string(), "jest".to_string()]);
    let w = run_in_with_args("/p", "test", "jest", &vec!["--watch".to_string(), "a b".to_string()], &vec![]);
    assert_eq!(w.args[1], "jest --watch 'a b'");
    assert_eq!(search_path(&vec!["/bin1".to_string()], "/usr/bin:/bin").as_deref(), Some("/bin1:/usr/bin:/bin"));
    assert_eq!(search_path(&vec!["/bin1".to_string()], "").as_deref(), Some("/bin1"));
    assert_eq!(search_path(&vec!["/a:b".to_string()], ""), None);
    assert!(script_outcome("t", ScriptExit::Exited { success: true, code: Some(0) }).is_ok());
    assert!(matches!(
        script_outcome("t", ScriptExit::Exited { success: false, code: Some(3) }),
        Err(GurokuError::ScriptFailed { status: 3, .. })
    ));
}

#[test]
fn workspaces_are_deduplicated_and_sorted() {
    let ws = |root: &str, name: &str| {
        let mut m = Manifest::empty();
        m.name = Some(name.to_string());
        Workspace { root: root.to_string(), manifest: m }
    };
    let found = vec![ws("/r/packages/b", "b"), ws("/r/packages/a", "a"), ws("/r/packages//b", "b-again"), ws("/r/apps/x", "x")];
    let out = collect_workspaces(found);
    let names: Vec<&str> = out.iter().map(|w| w.name().unwrap()).collect();
    assert_eq!(names, vec!["x", "a", "b"]);
    let mut root = Manifest::empty();
    root.workspaces = Some(JsonValue::Array(vec![JsonValue::Str("packages/*".to_string())]));
    assert_eq!(workspace_patterns("/r", &root), vec!["/r/packages/*".to_string()]);
    assert_eq!(workspace_header(2), "found 2 workspace package(s):");
    assert_eq!(workspace_line(&out[1], "packages/a"), "  a@?  (packages/a)");
}

#[test]
fn linking_a_resolution() {
    let mut packages = StrMap::new();
    let a = VersionInfo {
        name: "a".to_string(),
        version: "1.0.0".to_string(),
        dist: Dist { tarball: "https://x/a.tgz".to_string(), integrity: None, shasum: None },
        dependencies: smap(&[("b", "^1"), ("missing", "^1")]),
    };
    let b = VersionInfo {
        name: "b".to_string(),
        version: "1.2.0".to_string(),
        dist: Dist { tarball: "https://x/b.tgz".to_string(), integrity: None, shasum: None },
        dependencies: StrMap::new(),
    };
    packages.insert("a".to_string(), Resolved { info: a, local_source: None, aliased_from: None });
    packages.insert("b".to_string(), Resolved { info: b, local_source: Some("/work/b".to_string()), aliased_from: None });
    let res = Resolution { packages };
    let cas = smap(&[("a", "/cas/aa")]);
    assert_eq!(link_sources(&res, &cas), vec!["/cas/aa".to_string(), "/work/b".to_string()]);
    let mut bins = StrMap::new();
    bins.insert("/cas/aa".to_string(), vec![("acli".to_string(), "./bin.js".to_string())]);
    let linked = into_linked_packages(&res, &cas, &bins);
    assert_eq!(linked.len(), 2);
    assert_eq!(linked[0].name, "a");
    assert_eq!(linked[0].dependencies.get("b").map(|s| s.as_str()), Some("1.2.0"));
    assert!(linked[0].dependencies.get("missing").is_none());
    assert_eq!(linked[0].bin_entries, vec![("acli".to_string(), "./bin.js".to_string())]);
    assert_eq!(linked[1].source_dir, "/work/b");
    assert!(linked[1].bin_entries.is_empty());
    assert_eq!(link_target("/p/node_modules", "@s/x"), "/p/node_modules/@s/x");
}

#[test]
fn linking_a_lockfile() {
    let mut l = Lockfile::new();
    l.insert("a", "1.0.0", PackageLock { resolved: "https://x/a.tgz".to_string(), integrity: None, dependencies: smap(&[("b", "1.0.0")]) });
    l.insert("c", "2.0.0", PackageLock { resolved: "https://x/c.tgz".to_string(), integrity: None, dependencies: StrMap::new() });
    let cas = smap(&[("a", "/cas/a")]);
    let linked = lock_linked_packages(&l, &cas);
    assert_eq!(linked.len(), 1);
    assert_eq!(linked[0].version, "1.0.0");
    assert_eq!(linked[0].dependencies.get("b").map(|s| s.as_str()), Some("1.0.0"));
}

#[test]
fn audit_groups_and_reports() {
    let mut l = Lockfile::new();
    for (n, v) in [("a", "1.0.0"), ("a", "2.0.0"), ("@s/b", "3.0.0")] {
        l.insert(n, v, PackageLock { resolved: "https://x/y.tgz".to_string(), integrity: None, dependencies: StrMap::new() });
    }
    let g = group_by_name(&l);
    assert_eq!(g.get("a").unwrap(), &vec!["1.0.0".to_string(), "2.0.0".to_string()]);
    assert_eq!(g.get("@s/b").unwrap(), &vec!["3.0.0".to_string()]);

    let empty = AuditReport::new();
    assert_eq!(report_lines(&empty), vec!["no known vulnerabilities".to_string()]);
    assert!(audit_verdict(&empty).is_ok());

    let mut findings = StrMap::new();
    findings.insert("a".to_string(), vec![advisory("high", "<2.0.0", "Prototype pollution")]);
    let report = AuditReport { findings };
    assert_eq!(report.count(), 1);
    assert_eq!(
        report_lines(&report),
        vec![
            "found 1 advisory across 1 package(s):".to_string(),
            "  [high] a@<2.0.0".to_string(),
            "        Prototype pollution".to_string(),
            "        patched: >=2.0.0".to_string(),
        ]
    );
    match audit_verdict(&report) {
        Err(GurokuError::Other(m)) => assert_eq!(m, "1 known vulnerability reported"),
        other => panic!("unexpected {:?}", other),
    }
    let mut answered = StrMap::new();
    answered.insert("a".to_string(), vec![advisory("low", "<1", "")]);
    answered.insert("clean".to_string(), vec![]);
    let rep = audit_answer(true, "200 OK", Ok(answered)).unwrap();
    assert_eq!(rep.findings.len(), 1);
    assert!(rep.findings.get("clean").is_none());
    assert_eq!(rep.count(), 1);
    match audit_answer(false, "503 Service Unavailable", Ok(StrMap::new())) {
        Err(GurokuError::AuditFailed(m)) => assert_eq!(m, "HTTP 503 Service Unavailable from advisories endpoint"),
        other => panic!("unexpected {:?}", other.map(|r| r.is_empty())),
    }
}

#[test]
fn default_command_is_install() {
    let cli = Cli { cwd: None, command: None };
    assert!(matches!(cli.command_or_install(), Command::Install { frozen_lockfile: false, ignore_scripts: false }));
}
