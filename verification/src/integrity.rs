//! Verification of registry tarballs against npm `integrity` strings, and the
//! digests that key the content-addressable store.
use crate::error::{GurokuError, Result};
use crate::text::{split_once, split_once_char, str_eq};
use base64::Engine;
use sha2::Digest;
use vstd::prelude::*;

verus! {

/// The SHA-512 digest of some bytes (`sha2::Sha512`).
pub uninterp spec fn sha512_of(data: Seq<u8>) -> Seq<u8>;

/// The SHA-256 digest (`sha2::Sha256`) of the UTF-8 bytes of a text.
pub uninterp spec fn sha256_text(text: Seq<char>) -> Seq<u8>;

/// What the standard base64 engine (with padding) decodes a text to, when
/// it accepts it.
pub uninterp spec fn base64_decoded(text: Seq<char>) -> Option<Seq<u8>>;

/// Calls `Sha512::new`, `update` and `finalize`; a SHA-512 digest is 64
/// bytes long.
#[verifier::external_body]
pub(crate) fn sha512_digest(data: &[u8]) -> (r: Vec<u8>)
    ensures
        r@ == sha512_of(data@),
        r@.len() == 64,
{
    let mut hasher = sha2::Sha512::new();
    hasher.update(data);
    hasher.finalize().to_vec()
}

/// Calls `Sha256::new`, `update` with the text's bytes, and `finalize`; a
/// SHA-256 digest is 32 bytes long.
#[verifier::external_body]
pub(crate) fn sha256_of_text(text: &str) -> (r: Vec<u8>)
    ensures
        r@ == sha256_text(text@),
        r@.len() == 32,
{
    let mut hasher = sha2::Sha256::new();
    hasher.update(text.as_bytes());
    hasher.finalize().to_vec()
}

/// Calls `base64::engine::general_purpose::STANDARD.decode`.
#[verifier::external_body]
fn base64_decode(text: &str) -> (r: Option<Vec<u8>>)
    ensures
        r is Some == base64_decoded(text@) is Some,
        r matches Some(b) ==> base64_decoded(text@) == Some(b@),
{
    base64::engine::general_purpose::STANDARD.decode(text).ok()
}

/// The lower-case hexadecimal digit for `d < 16`.
pub open spec fn hex_digit(d: u8) -> char {
    if d < 10 {
        (('0' as u8) + d) as char
    } else {
        (('a' as u8) + d - 10) as char
    }
}

/// Lower-case hexadecimal text of some bytes: two digits per byte, high
/// nibble first.
pub open spec fn hex_text(data: Seq<u8>) -> Seq<char>
    decreases data.len(),
{
    if data.len() == 0 {
        Seq::empty()
    } else {
        hex_text(data.drop_last()) + seq![hex_digit(data.last() / 16), hex_digit(data.last() % 16)]
    }
}

/// Calls `hex::encode`, which writes each byte as two lower-case digits.
#[verifier::external_body]
pub(crate) fn hex_encode(data: &[u8]) -> (r: String)
    ensures
        r@ == hex_text(data@),
{
    hex::encode(data)
}

pub fn bytes_equal(a: &[u8], b: &[u8]) -> (r: bool)
    ensures
        r == (a@ == b@),
{
    if a.len() != b.len() {
        return false;
    }
    let n = a.len();
    let mut i: usize = 0;
    while i < n
        invariant
            n == a@.len(),
            n == b@.len(),
            i <= n,
            forall|j: int| 0 <= j < i ==> a@[j] == b@[j],
        decreases n - i,
    {
        if a[i] != b[i] {
            return false;
        }
        i = i + 1;
    }
    assert(a@ =~= b@);
    true
}

pub open spec fn lit_sha512() -> Seq<char> {
    seq!['s', 'h', 'a', '5', '1', '2']
}

/// Check `bytes` against the base64 text of a SHA-512 digest.
pub fn verify_sha512(bytes: &[u8], encoded: &str, name: &str, version: &str) -> (r: Result<()>)
    ensures
        match base64_decoded(encoded@) {
            None => r matches Err(GurokuError::InvalidIntegrity(t)) && t@ == encoded@,
            Some(expected) => if sha512_of(bytes@) == expected {
                r is Ok
            } else {
                r matches Err(GurokuError::IntegrityMismatch { name: n, version: v, detail })
                    && n@ == name@ && v@ == version@ && detail@ == "sha512 mismatch"@
            },
        },
{
    let expected = match base64_decode(encoded) {
        Some(e) => e,
        None => {
            return Err(GurokuError::InvalidIntegrity(encoded.to_owned()));
        },
    };
    let actual = sha512_digest(bytes);
    if bytes_equal(actual.as_slice(), expected.as_slice()) {
        Ok(())
    } else {
        Err(
            GurokuError::IntegrityMismatch {
                name: name.to_owned(),
                version: version.to_owned(),
                detail: "sha512 mismatch".to_owned(),
            },
        )
    }
}

/// What verifying `bytes` against an npm-style `integrity` string
/// (`<algo>-<base64 digest>`) gives: only `sha512` is supported.
pub open spec fn verify_result(
    bytes: Seq<u8>,
    integrity: Seq<char>,
    name: Seq<char>,
    version: Seq<char>,
    r: Result<()>,
) -> bool {
    match split_once(integrity, '-') {
        None => r matches Err(GurokuError::InvalidIntegrity(t)) && t@ == integrity,
        Some((algo, encoded)) => if algo == lit_sha512() {
            match base64_decoded(encoded) {
                None => r matches Err(GurokuError::InvalidIntegrity(t)) && t@ == encoded,
                Some(expected) => if sha512_of(bytes) == expected {
                    r is Ok
                } else {
                    r matches Err(GurokuError::IntegrityMismatch { name: n, version: v, detail })
                        && n@ == name && v@ == version && detail@ == "sha512 mismatch"@
                },
            }
        } else {
            r matches Err(GurokuError::UnsupportedIntegrity(a)) && a@ == algo
        },
    }
}

/// Verify an npm-style `integrity` string (`<algo>-<base64 digest>`)
/// against the bytes of a tarball. Only `sha512` is supported.
pub fn verify(bytes: &[u8], integrity: &str, name: &str, version: &str) -> (r: Result<()>)
    ensures
        verify_result(bytes@, integrity@, name@, version@, r),
{
    let (algo, encoded) = match split_once_char(integrity, '-') {
        Some(p) => p,
        None => {
            return Err(GurokuError::InvalidIntegrity(integrity.to_owned()));
        },
    };
    proof {
        reveal_strlit("sha512");
        assert("sha512"@ =~= lit_sha512());
    }
    if str_eq(algo.as_str(), "sha512") {
        verify_sha512(bytes, encoded.as_str(), name, version)
    } else {
        Err(GurokuError::UnsupportedIntegrity(algo))
    }
}

/// The lower-case hex SHA-512 of some bytes: the key of a store entry.
pub fn sha512_hex(bytes: &[u8]) -> (r: String)
    ensures
        r@ == hex_text(sha512_of(bytes@)),
        r@.len() == 128,
{
    let d = sha512_digest(bytes);
    proof {
        lemma_hex_text_len(d@);
    }
    hex_encode(d.as_slice())
}

pub proof fn lemma_hex_text_len(data: Seq<u8>)
    ensures
        hex_text(data).len() == 2 * data.len(),
    decreases data.len(),
{
    if data.len() > 0 {
        lemma_hex_text_len(data.drop_last());
    }
}

} // verus!
