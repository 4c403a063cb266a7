//! On-disk locations under the per-user guroku home, `$HOME/.guroku`.
//!
//! Each location has a form that takes the guroku home as an argument
//! (`*_under`) and a form that finds the home from the environment.
use crate::error::{GurokuError, Result};
use crate::paths::{byte_len, byte_len_below, char_utf8_len, join_path, path_join, utf8_len};
use crate::text::{concat2, concat3, replace_char, replace_char_str};
use vstd::prelude::*;

verus! {

/// Calls `dirs::home_dir` and gives back its text. Nothing is promised of
/// the result: it depends on the environment.
#[verifier::external_body]
fn user_home_dir() -> Option<String> {
    dirs::home_dir().map(|p| p.to_string_lossy().into_owned())
}

/// The guroku home inside a user home directory.
pub open spec fn home_in(user_home: Seq<char>) -> Seq<char> {
    join_path(user_home, ".guroku"@)
}

/// Root of the per-user guroku cache: `$HOME/.guroku`.
pub fn home() -> (r: Result<String>)
    ensures
        r matches Ok(p) ==> exists|h: Seq<char>| p@ == home_in(h),
        r matches Err(e) ==> e is NoCacheDir,
{
    match user_home_dir() {
        Some(h) => {
            let p = path_join(h.as_str(), ".guroku");
            assert(p@ == home_in(h@));
            Ok(p)
        },
        None => Err(GurokuError::NoCacheDir),
    }
}

/// Replace `/` in scoped package names (`@scope/name`) so that they map to a
/// single directory level on disk.
pub fn safe_segment(name: &str) -> (r: String)
    ensures
        r@ == replace_char(name@, '/', '+'),
{
    replace_char_str(name, '/', '+')
}

pub open spec fn store_path(root: Seq<char>) -> Seq<char> {
    join_path(root, "store"@)
}

pub open spec fn package_path(root: Seq<char>, name: Seq<char>, version: Seq<char>) -> Seq<char> {
    join_path(join_path(store_path(root), replace_char(name, '/', '+')), version)
}

pub open spec fn cas_path(root: Seq<char>) -> Seq<char> {
    join_path(root, "cas"@)
}

pub open spec fn tarball_cache_path(root: Seq<char>) -> Seq<char> {
    join_path(join_path(root, "cache"@), "tarballs"@)
}

pub open spec fn metadata_cache_path(root: Seq<char>) -> Seq<char> {
    join_path(join_path(root, "cache"@), "metadata"@)
}

pub open spec fn git_cache_path(root: Seq<char>) -> Seq<char> {
    join_path(join_path(root, "cache"@), "git"@)
}

pub open spec fn metadata_entry_path(root: Seq<char>, name: Seq<char>) -> Seq<char> {
    join_path(metadata_cache_path(root), replace_char(name, '/', '+') + ".json"@)
}

pub open spec fn etag_entry_path(root: Seq<char>, name: Seq<char>) -> Seq<char> {
    join_path(metadata_cache_path(root), replace_char(name, '/', '+') + ".etag"@)
}

/// How many characters make up the first two bytes of a text.
pub open spec fn two_byte_chars(s: Seq<char>) -> int {
    if s.len() > 0 && utf8_len(s[0]) == 2 {
        1
    } else {
        2
    }
}

/// Whether byte 2 of `s` starts a character (so `split_at(2)` is allowed).
pub open spec fn boundary_at_two(s: Seq<char>) -> bool {
    ||| (s.len() >= 1 && utf8_len(s[0]) == 2)
    ||| (s.len() >= 2 && utf8_len(s[0]) == 1 && utf8_len(s[1]) == 1)
}

pub open spec fn cas_entry_path(root: Seq<char>, hex: Seq<char>) -> Seq<char> {
    join_path(
        join_path(cas_path(root), hex.take(two_byte_chars(hex))),
        hex.skip(two_byte_chars(hex)),
    )
}

/// `<root>/store`: the per-name/version layout of early versions.
pub fn store_dir_under(root: &str) -> (r: String)
    ensures
        r@ == store_path(root@),
{
    path_join(root, "store")
}

pub fn package_dir_under(root: &str, name: &str, version: &str) -> (r: String)
    ensures
        r@ == package_path(root@, name@, version@),
{
    let s = store_dir_under(root);
    let seg = safe_segment(name);
    let p = path_join(s.as_str(), seg.as_str());
    path_join(p.as_str(), version)
}

/// `<root>/cas`: the content-addressable store. Each extracted package lives
/// under `cas/<sha512[0:2]>/<sha512[2:]>/`.
pub fn cas_dir_under(root: &str) -> (r: String)
    ensures
        r@ == cas_path(root@),
{
    path_join(root, "cas")
}

/// The store entry for a SHA-512 hex digest: split after its first two
/// bytes. A digest shorter than four bytes is refused.
pub fn cas_entry_under(root: &str, sha512_hex: &str) -> (r: Result<String>)
    requires
        byte_len(sha512_hex@) >= 4 ==> boundary_at_two(sha512_hex@),
    ensures
        byte_len(sha512_hex@) < 4 ==> (r matches Err(GurokuError::Other(m)) && m@
            == "sha512 hex too short: `"@ + sha512_hex@ + "`"@),
        byte_len(sha512_hex@) >= 4 ==> (r matches Ok(p) && p@ == cas_entry_path(root@, sha512_hex@)),
{
    if byte_len_below(sha512_hex, 4) {
        proof {
            reveal_strlit("sha512 hex too short: `");
        }
        let m = concat3("sha512 hex too short: `", sha512_hex, "`");
        return Err(GurokuError::Other(m));
    }
    let k: usize = if char_utf8_len(sha512_hex.get_char(0)) == 2 {
        1
    } else {
        2
    };
    let n = sha512_hex.unicode_len();
    let prefix = crate::text::slice(sha512_hex, 0, k);
    let rest = crate::text::slice(sha512_hex, k, n);
    let c = cas_dir_under(root);
    let p = path_join(c.as_str(), prefix.as_str());
    Ok(path_join(p.as_str(), rest.as_str()))
}

/// `<root>/cache/tarballs`: raw downloaded `.tgz` files (reserved).
pub fn tarball_cache_dir_under(root: &str) -> (r: String)
    ensures
        r@ == tarball_cache_path(root@),
{
    let c = path_join(root, "cache");
    path_join(c.as_str(), "tarballs")
}

/// `<root>/cache/metadata`: the ETag-aware registry-metadata cache.
pub fn metadata_cache_dir_under(root: &str) -> (r: String)
    ensures
        r@ == metadata_cache_path(root@),
{
    let c = path_join(root, "cache");
    path_join(c.as_str(), "metadata")
}

/// `<root>/cache/git`: clones of git dependencies.
pub fn git_cache_dir_under(root: &str) -> (r: String)
    ensures
        r@ == git_cache_path(root@),
{
    let c = path_join(root, "cache");
    path_join(c.as_str(), "git")
}

pub fn metadata_cache_entry_under(root: &str, name: &str) -> (r: String)
    ensures
        r@ == metadata_entry_path(root@, name@),
{
    let d = metadata_cache_dir_under(root);
    let seg = safe_segment(name);
    let f = concat2(seg.as_str(), ".json");
    path_join(d.as_str(), f.as_str())
}

pub fn metadata_etag_entry_under(root: &str, name: &str) -> (r: String)
    ensures
        r@ == etag_entry_path(root@, name@),
{
    let d = metadata_cache_dir_under(root);
    let seg = safe_segment(name);
    let f = concat2(seg.as_str(), ".etag");
    path_join(d.as_str(), f.as_str())
}

/// `~/.guroku/store`.
pub fn store_dir() -> (r: Result<String>)
    ensures
        r matches Ok(p) ==> exists|h: Seq<char>| p@ == store_path(home_in(h)),
        r matches Err(e) ==> e is NoCacheDir,
{
    let root = home()?;
    let ghost h = choose|h: Seq<char>| root@ == home_in(h);
    let p = store_dir_under(root.as_str());
    assert(p@ == store_path(home_in(h)));
    Ok(p)
}

pub fn package_dir(name: &str, version: &str) -> (r: Result<String>)
    ensures
        r matches Ok(p) ==> exists|h: Seq<char>| p@ == package_path(home_in(h), name@, version@),
        r matches Err(e) ==> e is NoCacheDir,
{
    let root = home()?;
    let ghost h = choose|h: Seq<char>| root@ == home_in(h);
    let p = package_dir_under(root.as_str(), name, version);
    assert(p@ == package_path(home_in(h), name@, version@));
    Ok(p)
}

/// `~/.guroku/cas`.
pub fn cas_dir() -> (r: Result<String>)
    ensures
        r matches Ok(p) ==> exists|h: Seq<char>| p@ == cas_path(home_in(h)),
        r matches Err(e) ==> e is NoCacheDir,
{
    let root = home()?;
    let ghost h = choose|h: Seq<char>| root@ == home_in(h);
    let p = cas_dir_under(root.as_str());
    assert(p@ == cas_path(home_in(h)));
    Ok(p)
}

pub fn cas_entry(sha512_hex: &str) -> (r: Result<String>)
    requires
        byte_len(sha512_hex@) >= 4 ==> boundary_at_two(sha512_hex@),
    ensures
        byte_len(sha512_hex@) < 4 ==> (r matches Err(GurokuError::Other(m)) && m@
            == "sha512 hex too short: `"@ + sha512_hex@ + "`"@),
        byte_len(sha512_hex@) >= 4 ==> match r {
            Ok(p) => exists|h: Seq<char>| p@ == cas_entry_path(home_in(h), sha512_hex@),
            Err(e) => e is NoCacheDir,
        },
{
    if byte_len_below(sha512_hex, 4) {
        let m = concat3("sha512 hex too short: `", sha512_hex, "`");
        return Err(GurokuError::Other(m));
    }
    let root = home()?;
    let ghost h = choose|h: Seq<char>| root@ == home_in(h);
    let r = cas_entry_under(root.as_str(), sha512_hex);
    proof {
        if let Ok(p) = &r {
            assert(p@ == cas_entry_path(home_in(h), sha512_hex@));
        }
    }
    r
}

pub fn tarball_cache_dir() -> (r: Result<String>)
    ensures
        r matches Ok(p) ==> exists|h: Seq<char>| p@ == tarball_cache_path(home_in(h)),
        r matches Err(e) ==> e is NoCacheDir,
{
    let root = home()?;
    let ghost h = choose|h: Seq<char>| root@ == home_in(h);
    let p = tarball_cache_dir_under(root.as_str());
    assert(p@ == tarball_cache_path(home_in(h)));
    Ok(p)
}

pub fn metadata_cache_dir() -> (r: Result<String>)
    ensures
        r matches Ok(p) ==> exists|h: Seq<char>| p@ == metadata_cache_path(home_in(h)),
        r matches Err(e) ==> e is NoCacheDir,
{
    let root = home()?;
    let ghost h = choose|h: Seq<char>| root@ == home_in(h);
    let p = metadata_cache_dir_under(root.as_str());
    assert(p@ == metadata_cache_path(home_in(h)));
    Ok(p)
}

pub fn git_cache_dir() -> (r: Result<String>)
    ensures
        r matches Ok(p) ==> exists|h: Seq<char>| p@ == git_cache_path(home_in(h)),
        r matches Err(e) ==> e is NoCacheDir,
{
    let root = home()?;
    let ghost h = choose|h: Seq<char>| root@ == home_in(h);
    let p = git_cache_dir_under(root.as_str());
    assert(p@ == git_cache_path(home_in(h)));
    Ok(p)
}

pub fn metadata_cache_entry(name: &str) -> (r: Result<String>)
    ensures
        r matches Ok(p) ==> exists|h: Seq<char>| p@ == metadata_entry_path(home_in(h), name@),
        r matches Err(e) ==> e is NoCacheDir,
{
    let root = home()?;
    let ghost h = choose|h: Seq<char>| root@ == home_in(h);
    let p = metadata_cache_entry_under(root.as_str(), name);
    assert(p@ == metadata_entry_path(home_in(h), name@));
    Ok(p)
}

pub fn metadata_etag_entry(name: &str) -> (r: Result<String>)
    ensures
        r matches Ok(p) ==> exists|h: Seq<char>| p@ == etag_entry_path(home_in(h), name@),
        r matches Err(e) ==> e is NoCacheDir,
{
    let root = home()?;
    let ghost h = choose|h: Seq<char>| root@ == home_in(h);
    let p = metadata_etag_entry_under(root.as_str(), name);
    assert(p@ == etag_entry_path(home_in(h), name@));
    Ok(p)
}

} // verus!
