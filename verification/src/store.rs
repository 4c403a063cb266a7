//! Content-addressable storage for extracted packages.
//!
//! A single global store lives at `~/.guroku/cas/<sha[0:2]>/<sha[2:]>/`,
//! keyed by the SHA-512 of the original tarball, so two registry records
//! that ship the same bytes share an entry. Inserts extract into a sibling
//! `.tmp` directory, write a `.guroku-cas-ready` marker, and rename it into
//! place. The file operations are the caller's; the locations are here.
use crate::cache::{boundary_at_two, cas_entry, cas_entry_path, home_in};
use crate::error::Result;
use crate::integrity::{hex_digit, hex_text, sha512_hex, sha512_of};
use crate::paths::{byte_len, join_path, path_join, utf8_len};
use crate::text::concat2;
use vstd::prelude::*;

verus! {

proof fn lemma_hex_ascii(data: Seq<u8>)
    ensures
        forall|i: int| 0 <= i < hex_text(data).len() ==> utf8_len(#[trigger] hex_text(data)[i]) == 1,
        byte_len(hex_text(data)) == hex_text(data).len(),
    decreases data.len(),
{
    crate::integrity::lemma_hex_text_len(data);
    if data.len() > 0 {
        let prev = data.drop_last();
        lemma_hex_ascii(prev);
        let b = data.last();
        let t = hex_text(data);
        let tp = hex_text(prev);
        assert(t == tp + seq![hex_digit(b / 16), hex_digit(b % 16)]);
        assert(utf8_len(hex_digit(b / 16)) == 1);
        assert(utf8_len(hex_digit(b % 16)) == 1);
        assert forall|i: int| 0 <= i < t.len() implies utf8_len(#[trigger] t[i]) == 1 by {
            if i < tp.len() {
                assert(t[i] == tp[i]);
            }
        }
        assert(t.drop_last().drop_last() =~= tp);
        assert(t.drop_last().last() == hex_digit(b / 16));
        assert(t.last() == hex_digit(b % 16));
        assert(byte_len(t) == byte_len(t.drop_last()) + utf8_len(t.last()));
        assert(byte_len(t.drop_last()) == byte_len(t.drop_last().drop_last()) + utf8_len(
            t.drop_last().last(),
        ));
    }
}

/// The store entry for a tarball: the entry of its SHA-512 hex digest.
pub fn cas_target(tarball_bytes: &[u8]) -> (r: Result<String>)
    ensures
        r matches Ok(p) ==> exists|h: Seq<char>| p@ == cas_entry_path(home_in(h), hex_text(sha512_of(tarball_bytes@))),
        r matches Err(e) ==> e is NoCacheDir,
{
    let hex = sha512_hex(tarball_bytes);
    proof {
        lemma_hex_ascii(sha512_of(tarball_bytes@));
        assert(utf8_len(hex@[0]) == 1);
        assert(utf8_len(hex@[1]) == 1);
        assert(boundary_at_two(hex@));
    }
    cas_entry(hex.as_str())
}

/// A store entry depends on a tarball only through its SHA-512: under one
/// home, tarballs with the same digest (the same bytes among them) have the
/// same entry, the same marker and the same staging directory, so the
/// marker written for the first tells the second that the entry is ready.
pub proof fn lemma_store_entry_by_digest(root: Seq<char>, a: Seq<u8>, b: Seq<u8>)
    requires
        sha512_of(a) == sha512_of(b),
    ensures
        cas_entry_path(root, hex_text(sha512_of(a))) == cas_entry_path(root, hex_text(sha512_of(b))),
        join_path(cas_entry_path(root, hex_text(sha512_of(a))), ".guroku-cas-ready"@) == join_path(
            cas_entry_path(root, hex_text(sha512_of(b))),
            ".guroku-cas-ready"@,
        ),
        cas_entry_path(root, hex_text(sha512_of(a))) + ".tmp"@ == cas_entry_path(
            root,
            hex_text(sha512_of(b)),
        ) + ".tmp"@,
{
}

/// The store needs no per-project preparation.
pub fn ensure_store_dir(_root: &str) -> (r: Result<()>)
    ensures
        r is Ok,
{
    Ok(())
}

/// `p` with `suffix` appended to its last component.
pub fn with_suffix(p: &str, suffix: &str) -> (r: String)
    ensures
        r@ == p@ + suffix@,
{
    concat2(p, suffix)
}

/// The sibling directory that an entry is extracted into before it is
/// renamed into place.
pub fn staging_dir(target: &str) -> (r: String)
    ensures
        r@ == target@ + ".tmp"@,
{
    with_suffix(target, ".tmp")
}

/// The marker whose presence says that a store entry is fully populated.
pub fn marker_path(dir: &str) -> (r: String)
    ensures
        r@ == join_path(dir@, ".guroku-cas-ready"@),
{
    path_join(dir, ".guroku-cas-ready")
}

} // verus!
