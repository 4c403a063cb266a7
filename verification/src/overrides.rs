//! `package.json#overrides` and `resolutions` lookup.
//!
//! Three forms are supported:
//!   - **Flat name** (npm 8+ and yarn classic): `"foo": "1.2.3"` pins every
//!     occurrence of `foo`.
//!   - **Path-keyed** (npm 8+): `"a > b > c": "1.0.0"` pins `c` only when
//!     reached through `a -> b -> c`. Whitespace around `>` is tolerated.
//!   - **Glob** (yarn classic): `"**/foo": "1.0.0"` pins any `foo`; only the
//!     literal `**/<name>` form is honoured.
use crate::manifest::Manifest;
use crate::strmap::text_map;
use crate::strmap::StrMap;
use crate::text::{contains_char, is_ws, lead_ws, split, split_char, str_eq, strip_prefix, strip_prefix_str, trail_ws, trim, trim_str};
use vstd::prelude::*;

verus! {

/// The `>`-separated parts of a path key, each trimmed.
pub open spec fn key_parts(key: Seq<char>) -> Seq<Seq<char>> {
    split(key, '>').map_values(|p: Seq<char>| trim(p))
}

/// `part` is `raw` with only a whitespace prefix and a whitespace suffix
/// removed, and neither starts nor ends with whitespace.
pub open spec fn ws_stripped(part: Seq<char>, raw: Seq<char>) -> bool {
    &&& part.len() > 0 ==> !is_ws(part[0]) && !is_ws(part.last())
    &&& exists|a: int, b: int|
        0 <= a <= b <= raw.len() && part == raw.subrange(a, b) && (forall|j: int|
            0 <= j < a ==> is_ws(#[trigger] raw[j])) && (forall|j: int|
            b <= j < raw.len() ==> is_ws(#[trigger] raw[j]))
}

/// A path key is read part by part, the parts being the text between
/// `>`s: each part is compared without the whitespace around it, so
/// `"b > c"` and `"b>c"` match the same paths.
pub proof fn lemma_key_parts_trimmed(key: Seq<char>)
    ensures
        key_parts(key).len() == split(key, '>').len(),
        forall|i: int|
            0 <= i < key_parts(key).len() ==> ws_stripped(#[trigger] key_parts(key)[i], split(key, '>')[i]),
{
    let raw = split(key, '>');
    assert forall|i: int| 0 <= i < key_parts(key).len() implies ws_stripped(#[trigger] key_parts(key)[i], raw[i]) by {
        let r = raw[i];
        assert(key_parts(key)[i] == trim(r));
        crate::text::lemma_trim_shape(r);
        let a = lead_ws(r) as int;
        let b = r.len() - trail_ws(r.skip(a));
        assert(0 <= a <= b <= r.len() && trim(r) == r.subrange(a, b));
    }
}

/// Whether `parts` is a contiguous suffix of `path`.
pub open spec fn is_tail(parts: Seq<Seq<char>>, path: Seq<Seq<char>>) -> bool {
    parts.len() <= path.len() && path.skip(path.len() - parts.len()) == parts
}

/// The value of the first path-keyed entry (in key order) whose parts end
/// `path`.
pub open spec fn path_match(pairs: Seq<(String, String)>, path: Seq<Seq<char>>) -> Option<
    Seq<char>,
>
    decreases pairs.len(),
{
    if pairs.len() == 0 {
        None
    } else if pairs[0].0@.contains('>') && is_tail(key_parts(pairs[0].0@), path) {
        Some(pairs[0].1@)
    } else {
        path_match(pairs.drop_first(), path)
    }
}

pub open spec fn lit_glob() -> Seq<char> {
    seq!['*', '*', '/']
}

/// The value of the first `**/<name>` entry (in key order).
pub open spec fn glob_match(pairs: Seq<(String, String)>, name: Seq<char>) -> Option<Seq<char>>
    decreases pairs.len(),
{
    if pairs.len() == 0 {
        None
    } else if strip_prefix(pairs[0].0@, lit_glob()) == Some(name) {
        Some(pairs[0].1@)
    } else {
        glob_match(pairs.drop_first(), name)
    }
}

pub open spec fn flat_match(m: Map<Seq<char>, String>, name: Seq<char>) -> Option<Seq<char>> {
    if m.contains_key(name) {
        Some(m[name]@)
    } else {
        None
    }
}

/// The override for the package reached through `path`, highest precedence
/// first: a path key in `overrides`, a flat key in `overrides`, a path key
/// in `resolutions`, a flat key in `resolutions`, a `**/<name>` key in
/// `resolutions`.
pub open spec fn lookup_spec(m: Manifest, path: Seq<Seq<char>>) -> Option<Seq<char>> {
    if path.len() == 0 {
        None
    } else {
        let leaf = path.last();
        if path_match(m.overrides.pairs(), path) is Some {
            path_match(m.overrides.pairs(), path)
        } else if flat_match(m.overrides@, leaf) is Some {
            flat_match(m.overrides@, leaf)
        } else if path_match(m.resolutions.pairs(), path) is Some {
            path_match(m.resolutions.pairs(), path)
        } else if flat_match(m.resolutions@, leaf) is Some {
            flat_match(m.resolutions@, leaf)
        } else {
            glob_match(m.resolutions.pairs(), leaf)
        }
    }
}

pub open spec fn path_view(path: Seq<String>) -> Seq<Seq<char>> {
    path.map_values(|s: String| s@)
}

fn opt_text(r: Option<String>) -> (r2: Option<String>)
    ensures
        r2 == r,
{
    r
}

/// Whether the trimmed `>`-parts of `key` end `path`.
fn tail_matches(key: &str, path: &Vec<String>) -> (b: bool)
    ensures
        b == is_tail(key_parts(key@), path_view(path@)),
{
    let raw = split_char(key, '>');
    let n = raw.len();
    let mut parts: Vec<String> = Vec::new();
    let mut i: usize = 0;
    while i < n
        invariant
            n == raw@.len(),
            n == split(key@, '>').len(),
            forall|j: int| 0 <= j < n ==> #[trigger] raw@[j]@ == split(key@, '>')[j],
            i <= n,
            parts@.len() == i,
            forall|j: int| 0 <= j < i ==> #[trigger] parts@[j]@ == key_parts(key@)[j],
        decreases n - i,
    {
        let t = trim_str(raw[i].as_str());
        parts.push(t);
        i = i + 1;
    }
    let ghost kp = key_parts(key@);
    let ghost pv = path_view(path@);
    let m = path.len();
    if n > m {
        return false;
    }
    let off = m - n;
    let mut j: usize = 0;
    while j < n
        invariant
            n == parts@.len(),
            n == kp.len(),
            m == path@.len(),
            m == pv.len(),
            off == m - n,
            kp == key_parts(key@),
            pv == path_view(path@),
            forall|q: int| 0 <= q < n ==> #[trigger] parts@[q]@ == kp[q],
            j <= n,
            forall|q: int| 0 <= q < j ==> pv[off + q] == kp[q],
        decreases n - j,
    {
        if !str_eq(parts[j].as_str(), path[off + j].as_str()) {
            proof {
                assert(pv.skip(off as int)[j as int] == pv[off + j]);
            }
            return false;
        }
        j = j + 1;
    }
    assert(pv.skip(off as int) =~= kp);
    true
}

fn match_path(map: &StrMap<String>, path: &Vec<String>) -> (r: Option<String>)
    ensures
        match r {
            Some(v) => path_match(map.pairs(), path_view(path@)) == Some(v@),
            None => path_match(map.pairs(), path_view(path@)) is None,
        },
{
    let n = map.len();
    let mut i: usize = 0;
    assert(map.pairs().skip(0) =~= map.pairs());
    while i < n
        invariant
            n == map.pairs().len(),
            i <= n,
            path_match(map.pairs(), path_view(path@)) == path_match(
                map.pairs().skip(i as int),
                path_view(path@),
            ),
        decreases n - i,
    {
        let key = map.key_at(i);
        proof {
            assert(map.pairs().skip(i as int)[0] == map.pairs()[i as int]);
            assert(map.pairs().skip(i as int).drop_first() =~= map.pairs().skip(i + 1));
        }
        if contains_char(key.as_str(), '>') && tail_matches(key.as_str(), path) {
            return Some(map.value_at(i).clone());
        }
        i = i + 1;
    }
    None
}

fn match_glob(map: &StrMap<String>, name: &str) -> (r: Option<String>)
    ensures
        match r {
            Some(v) => glob_match(map.pairs(), name@) == Some(v@),
            None => glob_match(map.pairs(), name@) is None,
        },
{
    proof {
        reveal_strlit("**/");
        assert("**/"@ =~= lit_glob());
    }
    let n = map.len();
    let mut i: usize = 0;
    assert(map.pairs().skip(0) =~= map.pairs());
    while i < n
        invariant
            n == map.pairs().len(),
            i <= n,
            "**/"@ == lit_glob(),
            glob_match(map.pairs(), name@) == glob_match(map.pairs().skip(i as int), name@),
        decreases n - i,
    {
        let key = map.key_at(i);
        proof {
            assert(map.pairs().skip(i as int)[0] == map.pairs()[i as int]);
            assert(map.pairs().skip(i as int).drop_first() =~= map.pairs().skip(i + 1));
        }
        if let Some(suffix) = strip_prefix_str(key.as_str(), "**/") {
            if str_eq(suffix.as_str(), name) {
                return Some(map.value_at(i).clone());
            }
        }
        i = i + 1;
    }
    None
}

/// The override for the package reached through `path` (the chain of names
/// from the root, ending with the package's own name); see `lookup_spec`
/// for the order of precedence.
pub fn lookup_with_path(manifest: &Manifest, path: &Vec<String>) -> (r: Option<String>)
    ensures
        match r {
            Some(v) => lookup_spec(*manifest, path_view(path@)) == Some(v@),
            None => lookup_spec(*manifest, path_view(path@)) is None,
        },
{
    if path.len() == 0 {
        return None;
    }
    let leaf = &path[path.len() - 1];
    proof {
        assert(path_view(path@).last() == leaf@);
    }
    if let Some(v) = match_path(&manifest.overrides, path) {
        return Some(v);
    }
    if let Some(v) = manifest.overrides.get(leaf.as_str()) {
        return Some(v.clone());
    }
    if let Some(v) = match_path(&manifest.resolutions, path) {
        return Some(v);
    }
    if let Some(v) = manifest.resolutions.get(leaf.as_str()) {
        return Some(v.clone());
    }
    match_glob(&manifest.resolutions, leaf.as_str())
}

/// The override for `name`, ignoring the path.
pub fn lookup(manifest: &Manifest, name: &str) -> (r: Option<String>)
    ensures
        match r {
            Some(v) => lookup_spec(*manifest, seq![name@]) == Some(v@),
            None => lookup_spec(*manifest, seq![name@]) is None,
        },
{
    let mut path: Vec<String> = Vec::new();
    path.push(name.to_owned());
    proof {
        assert(path_view(path@) =~= seq![name@]);
    }
    lookup_with_path(manifest, &path)
}

/// The merged override map: `resolutions` overlaid by `overrides`.
pub fn merged(manifest: &Manifest) -> (r: StrMap<String>)
    ensures
        text_map(r@) == text_map(manifest.resolutions@).union_prefer_right(
            text_map(manifest.overrides@),
        ),
{
    let mut out = manifest.resolutions.copy_strings();
    out.extend_strings(&manifest.overrides);
    out
}

#[derive(Debug, Clone, Copy)]
pub enum OverrideSource {
    Overrides,
    Resolutions,
}

#[derive(Debug, Clone, Copy, PartialEq, Eq)]
pub enum OverrideKind {
    Flat,
    Path,
    Glob,
    Unknown,
}

/// One entry of `overrides` or `resolutions`, classified for diagnostics.
#[derive(Debug)]
pub struct OverrideEntry<'a> {
    pub source: OverrideSource,
    pub key: &'a str,
    pub value: &'a str,
    pub kind: OverrideKind,
}

pub open spec fn kind_of(k: Seq<char>) -> OverrideKind {
    if k.contains('>') {
        OverrideKind::Path
    } else if lit_glob().is_prefix_of(k) {
        OverrideKind::Glob
    } else if k.len() == 0 {
        OverrideKind::Unknown
    } else {
        OverrideKind::Flat
    }
}

pub fn classify_key(k: &str) -> (r: OverrideKind)
    ensures
        r == kind_of(k@),
{
    proof {
        reveal_strlit("**/");
        assert("**/"@ =~= lit_glob());
    }
    if contains_char(k, '>') {
        OverrideKind::Path
    } else if crate::text::starts_with(k, "**/") {
        OverrideKind::Glob
    } else if k.unicode_len() == 0 {
        OverrideKind::Unknown
    } else {
        OverrideKind::Flat
    }
}

pub open spec fn entry_matches(e: OverrideEntry, source: OverrideSource, p: (String, String)) -> bool {
    &&& e.source == source
    &&& e.key@ == p.0@
    &&& e.value@ == p.1@
    &&& e.kind == kind_of(p.0@)
}

/// The entries of `overrides` then `resolutions`, each in key order, with
/// their kind.
pub fn classify_entries<'a>(manifest: &'a Manifest) -> (r: Vec<OverrideEntry<'a>>)
    ensures
        r@.len() == manifest.overrides.pairs().len() + manifest.resolutions.pairs().len(),
        forall|i: int|
            0 <= i < manifest.overrides.pairs().len() ==> entry_matches(
                #[trigger] r@[i],
                OverrideSource::Overrides,
                manifest.overrides.pairs()[i],
            ),
        forall|i: int|
            0 <= i < manifest.resolutions.pairs().len() ==> entry_matches(
                #[trigger] r@[manifest.overrides.pairs().len() + i],
                OverrideSource::Resolutions,
                manifest.resolutions.pairs()[i],
            ),
{
    let mut out: Vec<OverrideEntry<'a>> = Vec::new();
    let n = manifest.overrides.len();
    let mut i: usize = 0;
    while i < n
        invariant
            n == manifest.overrides.pairs().len(),
            i <= n,
            out@.len() == i,
            forall|j: int|
                0 <= j < i ==> entry_matches(
                    #[trigger] out@[j],
                    OverrideSource::Overrides,
                    manifest.overrides.pairs()[j],
                ),
        decreases n - i,
    {
        let k = manifest.overrides.key_at(i);
        let v = manifest.overrides.value_at(i);
        let kind = classify_key(k.as_str());
        out.push(OverrideEntry { source: OverrideSource::Overrides, key: k.as_str(), value: v.as_str(), kind });
        i = i + 1;
    }
    let m = manifest.resolutions.len();
    let mut j: usize = 0;
    while j < m
        invariant
            n == manifest.overrides.pairs().len(),
            m == manifest.resolutions.pairs().len(),
            j <= m,
            out@.len() == n + j,
            forall|q: int|
                0 <= q < n ==> entry_matches(
                    #[trigger] out@[q],
                    OverrideSource::Overrides,
                    manifest.overrides.pairs()[q],
                ),
            forall|q: int|
                0 <= q < j ==> entry_matches(
                    #[trigger] out@[n + q],
                    OverrideSource::Resolutions,
                    manifest.resolutions.pairs()[q],
                ),
        decreases m - j,
    {
        let k = manifest.resolutions.key_at(j);
        let v = manifest.resolutions.value_at(j);
        let kind = classify_key(k.as_str());
        out.push(OverrideEntry { source: OverrideSource::Resolutions, key: k.as_str(), value: v.as_str(), kind });
        proof {
            assert(out@[n + j] == out@.last());
        }
        j = j + 1;
    }
    out
}

} // verus!
