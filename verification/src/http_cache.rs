//! ETag-based cache of registry metadata.
//!
//! Layout, under `~/.guroku/cache/metadata/`:
//!   - `<name>.json`: the cached response body
//!   - `<name>.etag`: the ETag header from the matching response
//!
//! The files are read and written by the caller; this module holds what is
//! made of them.
use crate::text::{trim, trim_str};
use vstd::prelude::*;

verus! {

#[derive(Debug)]
pub struct CachedMetadata {
    pub body: Vec<u8>,
    pub etag: Option<String>,
}

/// The ETag stored in an `.etag` file: its trimmed text, or none when that
/// is empty.
pub fn etag_from_text(text: &str) -> (r: Option<String>)
    ensures
        match r {
            Some(e) => e@ == trim(text@) && trim(text@).len() > 0,
            None => trim(text@).len() == 0,
        },
{
    let t = trim_str(text);
    if t.unicode_len() == 0 {
        None
    } else {
        Some(t)
    }
}

} // verus!
