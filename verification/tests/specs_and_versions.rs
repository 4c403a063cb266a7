use guroku::specs::{classify, unparse, validate, DepSpec};
use guroku::version::{max_satisfying, parse_range, parse_version, version_less, version_to_string};
use guroku::error::GurokuError;

fn texts(v: &[&str]) -> Vec<String> {
    v.iter().map(|s| s.to_string()).collect()
}

#[test]
fn classify_range_is_trimmed() {
    match classify("  ^1.2.3 ") {
        DepSpec::Range(r) => assert_eq!(r, "^1.2.3"),
        other => panic!("unexpected {:?}", other),
    }
}

#[test]
fn classify_file_strips_prefix() {
    match classify("file:../lib") {
        DepSpec::File(p) => assert_eq!(p, "../lib"),
        other => panic!("unexpected {:?}", other),
    }
}

#[test]
fn classify_git_plus_with_ref() {
    match classify("git+https://example.com/repo.git#v1.0.0") {
        DepSpec::Git(g) => {
            assert_eq!(g.url, "https://example.com/repo.git");
            assert_eq!(g.revision.as_deref(), Some("v1.0.0"));
        }
        other => panic!("unexpected {:?}", other),
    }
}

#[test]
fn classify_github_shorthand() {
    match classify("github:owner/repo") {
        DepSpec::Git(g) => {
            assert_eq!(g.url, "https://github.com/owner/repo");
            assert_eq!(g.revision, None);
        }
        other => panic!("unexpected {:?}", other),
    }
}

#[test]
fn classify_alias_splits_on_last_at() {
    match classify("npm:@scope/real@^2.0.0") {
        DepSpec::Alias { real_name, inner } => {
            assert_eq!(real_name, "@scope/real");
            match *inner {
                DepSpec::Range(r) => assert_eq!(r, "^2.0.0"),
                other => panic!("unexpected inner {:?}", other),
            }
        }
        other => panic!("unexpected {:?}", other),
    }
}

#[test]
fn unparse_round_trips() {
    for s in ["^1.0.0", "file:./x", "git+https://h/r.git#main", "npm:real@~1.2"] {
        let d = classify(s);
        let back = unparse(&d);
        let again = classify(&back);
        assert_eq!(unparse(&again), back);
    }
    assert_eq!(unparse(&classify("npm:real@~1.2")), "npm:real@~1.2");
}

#[test]
fn validate_accepts_everything() {
    assert!(validate(&classify("whatever")).is_ok());
}

#[test]
fn parse_version_fields() {
    let v = parse_version("1.2.3-beta.1").unwrap();
    assert_eq!((v.major, v.minor, v.patch), (1, 2, 3));
    assert_eq!(version_to_string(&v), "1.2.3-beta.1");
}

#[test]
fn parse_version_error_message() {
    match parse_version("not-a-version") {
        Err(GurokuError::Other(m)) => assert_eq!(m, "invalid version: `not-a-version`"),
        other => panic!("unexpected {:?}", other),
    }
}

#[test]
fn prerelease_sorts_before_release() {
    let a = parse_version("1.0.0-alpha").unwrap();
    let b = parse_version("1.0.0").unwrap();
    assert!(version_less(&a, &b));
    assert!(!version_less(&b, &a));
}

#[test]
fn empty_range_is_any() {
    let r = parse_range("").unwrap();
    let v = max_satisfying(&texts(&["0.1.0", "9.9.9"]), &r).unwrap();
    assert_eq!(version_to_string(&v), "9.9.9");
}

#[test]
fn invalid_range_is_reported() {
    match parse_range(">>>nope") {
        Err(GurokuError::InvalidVersionSpec { spec, .. }) => assert_eq!(spec, ">>>nope"),
        other => panic!("unexpected {:?}", other.map(|_| ())),
    }
}

#[test]
fn max_satisfying_picks_highest_and_skips_garbage() {
    let r = parse_range("^1.0.0").unwrap();
    let cands = texts(&["1.0.0", "garbage", "1.5.0", "2.0.0", "1.2.9"]);
    let v = max_satisfying(&cands, &r).unwrap();
    assert_eq!(version_to_string(&v), "1.5.0");
    let none = parse_range("^3").unwrap();
    assert!(max_satisfying(&cands, &none).is_none());
}

#[test]
fn range_errors_name_the_package() {
    match guroku::resolver::parse_range_for("left-pad", "not a range !!") {
        Err(GurokuError::InvalidVersionSpec { name, spec }) => {
            assert_eq!(name, "left-pad");
            assert_eq!(spec, "not a range !!");
        }
        other => panic!("unexpected {:?}", other.map(|_| ())),
    }
    assert!(guroku::resolver::parse_range_for("a", "^1").is_ok());
}
