use guroku::audit::audit_request;
use guroku::cache::home;
use guroku::error::GurokuError;
use guroku::lockfile::{Lockfile, PackageLock};
use guroku::registry::RegistryClient;
use guroku::store::cas_target;
use guroku::strmap::StrMap;
use guroku::tarball::{extract_plan, ExtractOp};
use std::io::Write;

fn tgz(entries: &[(&str, &[u8])]) -> Vec<u8> {
    let mut builder = tar::Builder::new(Vec::new());
    for (path, data) in entries {
        let mut header = tar::Header::new_gnu();
        header.set_size(data.len() as u64);
        header.set_mode(0o644);
        header.set_entry_type(tar::EntryType::Regular);
        header.as_gnu_mut().unwrap().name[..path.len()].copy_from_slice(path.as_bytes());
        header.set_cksum();
        builder.append(&header, *data).unwrap();
    }
    let tar_bytes = builder.into_inner().unwrap();
    let mut gz = flate2::write::GzEncoder::new(Vec::new(), flate2::Compression::default());
    gz.write_all(&tar_bytes).unwrap();
    gz.finish().unwrap()
}

#[test]
fn extract_plan_reads_a_real_tarball() {
    let bytes = tgz(&[("package/package.json", b"{}"), ("package/lib/index.js", b"module.exports = 1;")]);
    let plan = extract_plan(&bytes);
    assert!(plan.error.is_none());
    let files: Vec<(Vec<String>, Vec<u8>)> = plan
        .ops
        .into_iter()
        .filter_map(|o| match o {
            ExtractOp::WriteFile(p, d) => Some((p, d)),
            ExtractOp::CreateDir(_) => None,
        })
        .collect();
    assert_eq!(
        files,
        vec![
            (vec!["package.json".to_string()], b"{}".to_vec()),
            (vec!["lib".to_string(), "index.js".to_string()], b"module.exports = 1;".to_vec()),
        ]
    );
}

#[test]
fn extract_plan_refuses_garbage() {
    let plan = extract_plan(b"not a gzip stream");
    assert!(plan.ops.is_empty());
    assert!(matches!(plan.error, Some(GurokuError::Tarball(_))));
}

#[test]
fn extract_plan_refuses_escape() {
    let bytes = tgz(&[("package/a.js", b"a"), ("package/../../evil", b"x"), ("package/b.js", b"b")]);
    let plan = extract_plan(&bytes);
    let written: Vec<Vec<String>> = plan
        .ops
        .iter()
        .map(|o| match o {
            ExtractOp::WriteFile(p, _) | ExtractOp::CreateDir(p) => p.clone(),
        })
        .collect();
    assert_eq!(written, vec![vec!["a.js".to_string()]]);
    assert!(matches!(plan.error, Some(GurokuError::Tarball(m)) if m == "tarball contains unsafe path: package/../../evil"));
}

#[test]
fn store_entry_of_tarball() {
    if let Ok(p) = cas_target(b"abc") {
        // sha512("abc") starts with ddaf35a1
        assert!(p.ends_with("/cas/dd/af35a193617abacc417349ae20413112e6fa4e89a97ea20a9eeee64b55d39a2192992a274fc1a836ba3c23a3feebbd454d4423643ce80e2a9ac94fa54ca49f"));
    }
}

#[test]
fn cache_home_is_dot_guroku() {
    if let Ok(h) = home() {
        assert!(h.ends_with("/.guroku"));
    }
}

#[test]
fn audit_request_body_and_url() {
    let client = RegistryClient::with_default_registry().unwrap();
    let mut l = Lockfile::new();
    assert!(matches!(audit_request(&client, &l), Ok(None)));
    for (n, v) in [("b", "2.0.0"), ("a", "1.0.0"), ("a", "1.1.0")] {
        l.insert(n, v, PackageLock { resolved: "https://x/y.tgz".to_string(), integrity: None, dependencies: StrMap::new() });
    }
    let req = audit_request(&client, &l).unwrap().unwrap();
    assert_eq!(req.url, "https://registry.npmjs.org/-/npm/v1/security/advisories/bulk");
    assert_eq!(String::from_utf8(req.body).unwrap(), r#"{"a":["1.0.0","1.1.0"],"b":["2.0.0"]}"#);
}

#[test]
fn extract_plan_keeps_entries_read_before_a_broken_stream() {
    let mut noise = Vec::with_capacity(200_000);
    let mut x: u32 = 12345;
    for _ in 0..200_000 {
        x = x.wrapping_mul(1_103_515_245).wrapping_add(12_345);
        noise.push((x >> 16) as u8);
    }
    let bytes = tgz(&[("package/a.js", b"a"), ("package/big.bin", &noise)]);
    let cut = &bytes[..bytes.len() / 2];
    let plan = extract_plan(cut);
    assert!(matches!(&plan.ops[0], ExtractOp::WriteFile(p, d) if p == &vec!["a.js".to_string()] && d == b"a"));
    assert!(matches!(plan.error, Some(GurokuError::Tarball(_))));
}

#[test]
fn store_entry_follows_the_digest() {
    if let (Ok(a), Ok(b), Ok(c)) = (cas_target(b"abc"), cas_target(b"abc"), cas_target(b"abd")) {
        assert_eq!(a, b);
        assert_ne!(a, c);
    }
}
