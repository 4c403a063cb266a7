//! The npm registry: package metadata and the decisions of the registry
//! client (which registry and which credentials serve a package, and what to
//! make of the registry's answer). The HTTP transfer itself is done by the
//! caller.
use crate::error::{GurokuError, Result};
use crate::http_cache::CachedMetadata;
use crate::npmrc::{scoped_key, token_for, Npmrc, DEFAULT_REGISTRY};
use crate::strmap::StrMap;
use crate::text::{split_once, split_once_char, strip_prefix_str, trim_end_char};
use crate::version::{best_satisfying, max_satisfying, parse_range, range_source, semver_range_parses, version_text, version_to_string};
use vstd::prelude::*;

verus! {

// ---------------------------------------------------------------------------
// URLs (the `url` crate)
// ---------------------------------------------------------------------------

/// The serialization of the URL that `url::Url::parse` makes of a string.
pub uninterp spec fn url_parsed(s: Seq<char>) -> Option<Seq<char>>;

/// The serialization of `Url::parse(base)?.join(input)`.
pub uninterp spec fn url_joined(base: Seq<char>, input: Seq<char>) -> Option<Seq<char>>;

/// `Url::parse(url)?.host_str()`.
pub uninterp spec fn url_host(url: Seq<char>) -> Option<Seq<char>>;

/// Calls `url::Url::parse` and gives back the serialization, or the parse
/// error's message.
#[verifier::external_body]
pub(crate) fn url_parse(s: &str) -> (r: core::result::Result<String, String>)
    ensures
        r is Ok == url_parsed(s@) is Some,
        r matches Ok(u) ==> url_parsed(s@) == Some(u@),
{
    url::Url::parse(s).map(|u| u.to_string()).map_err(|e| e.to_string())
}

/// Calls `url::Url::parse(base)` then `Url::join(input)`.
#[verifier::external_body]
pub(crate) fn url_join(base: &str, input: &str) -> (r: core::result::Result<String, String>)
    ensures
        r is Ok == url_joined(base@, input@) is Some,
        r matches Ok(u) ==> url_joined(base@, input@) == Some(u@),
{
    match url::Url::parse(base) {
        Ok(b) => b.join(input).map(|u| u.to_string()).map_err(|e| e.to_string()),
        Err(e) => Err(e.to_string()),
    }
}

/// Calls `url::Url::parse(url)` then `Url::host_str`.
#[verifier::external_body]
fn url_host_str(url: &str) -> (r: Option<String>)
    ensures
        r is Some == url_host(url@) is Some,
        r matches Some(h) ==> url_host(url@) == Some(h@),
{
    url::Url::parse(url).ok().and_then(|u| u.host_str().map(|h| h.to_string()))
}

// ---------------------------------------------------------------------------
// Metadata
// ---------------------------------------------------------------------------

#[derive(Debug)]
pub struct Dist {
    /// The tarball URL (its serialization).
    pub tarball: String,
    pub integrity: Option<String>,
    pub shasum: Option<String>,
}

#[derive(Debug)]
pub struct VersionInfo {
    pub name: String,
    pub version: String,
    pub dist: Dist,
    pub dependencies: StrMap<String>,
}

pub open spec fn opt_view(o: Option<String>) -> Option<Seq<char>> {
    match o {
        Some(s) => Some(s@),
        None => None,
    }
}

/// The value of a `VersionInfo`.
pub struct InfoModel {
    pub name: Seq<char>,
    pub version: Seq<char>,
    pub tarball: Seq<char>,
    pub integrity: Option<Seq<char>>,
    pub shasum: Option<Seq<char>>,
    pub dependencies: Seq<(Seq<char>, Seq<char>)>,
}

impl View for VersionInfo {
    type V = InfoModel;

    open spec fn view(&self) -> InfoModel {
        InfoModel {
            name: self.name@,
            version: self.version@,
            tarball: self.dist.tarball@,
            integrity: opt_view(self.dist.integrity),
            shasum: opt_view(self.dist.shasum),
            dependencies: crate::manifest::text_pairs(self.dependencies.pairs()),
        }
    }
}

pub fn copy_opt(o: &Option<String>) -> (r: Option<String>)
    ensures
        opt_view(r) == opt_view(*o),
{
    match o {
        Some(s) => Some(s.clone()),
        None => None,
    }
}

impl Dist {
    pub fn copy(&self) -> (r: Dist)
        ensures
            r.tarball@ == self.tarball@,
            opt_view(r.integrity) == opt_view(self.integrity),
            opt_view(r.shasum) == opt_view(self.shasum),
    {
        Dist {
            tarball: self.tarball.clone(),
            integrity: copy_opt(&self.integrity),
            shasum: copy_opt(&self.shasum),
        }
    }
}

impl VersionInfo {
    pub fn copy(&self) -> (r: VersionInfo)
        ensures
            r@ == self@,
            r.dependencies@ == self.dependencies@,
    {
        VersionInfo {
            name: self.name.clone(),
            version: self.version.clone(),
            dist: self.dist.copy(),
            dependencies: self.dependencies.copy_strings(),
        }
    }
}

#[derive(Debug)]
pub struct PackageMetadata {
    pub name: String,
    pub versions: StrMap<VersionInfo>,
    pub dist_tags: StrMap<String>,
}

/// The version keys of a metadata document, in key order.
pub open spec fn version_keys(m: PackageMetadata) -> Seq<Seq<char>> {
    m.versions.key_seq()
}

/// The version key that `resolve` picks for a spec: the spec itself when it
/// is a version key; else the target of a dist-tag of that name when it is a
/// version key; else the highest version satisfying the spec as a range,
/// when its rendering is a version key.
pub open spec fn resolve_key(m: PackageMetadata, spec: Seq<char>) -> Option<Seq<char>> {
    if m.versions@.contains_key(spec) {
        Some(spec)
    } else if m.dist_tags@.contains_key(spec) && m.versions@.contains_key(m.dist_tags@[spec]@) {
        Some(m.dist_tags@[spec]@)
    } else if semver_range_parses(range_source(spec)) {
        match best_satisfying(version_keys(m), range_source(spec)) {
            Some(v) => if m.versions@.contains_key(version_text(v)) {
                Some(version_text(v))
            } else {
                None
            },
            None => None,
        }
    } else {
        None
    }
}

/// The version keys of a map, as strings.
pub fn keys_of<V>(m: &StrMap<V>) -> (r: Vec<String>)
    ensures
        r@.map_values(|s: String| s@) == m.key_seq(),
{
    let n = m.len();
    let mut out: Vec<String> = Vec::new();
    let mut i: usize = 0;
    while i < n
        invariant
            n == m.pairs().len(),
            i <= n,
            out@.map_values(|s: String| s@) == m.key_seq().take(i as int),
        decreases n - i,
    {
        let k = m.key_at(i).clone();
        let ghost prev = out@.map_values(|s: String| s@);
        out.push(k);
        proof {
            assert(out@.map_values(|s: String| s@) =~= prev.push(k@));
            assert(m.key_seq()[i as int] == k@);
            assert(out@.map_values(|s: String| s@) =~= m.key_seq().take(i + 1));
        }
        i = i + 1;
    }
    assert(m.key_seq().take(n as int) =~= m.key_seq());
    out
}

impl PackageMetadata {
    /// The version record for `spec`: an exact version, a dist-tag, or the
    /// highest version satisfying it as a range.
    pub fn resolve(&self, spec: &str) -> (r: Result<&VersionInfo>)
        ensures
            match resolve_key(*self, spec@) {
                Some(k) => r matches Ok(v) && self.versions@.contains_key(k) && *v
                    == self.versions@[k],
                None => r matches Err(GurokuError::NoMatchingVersion { name, spec: s })
                    && name@ == self.name@ && s@ == spec@,
            },
    {
        if let Some(v) = self.versions.get(spec) {
            return Ok(v);
        }
        if let Some(target) = self.dist_tags.get(spec) {
            if let Some(v) = self.versions.get(target.as_str()) {
                return Ok(v);
            }
        }
        if let Ok(range) = parse_range(spec) {
            let candidates = keys_of(&self.versions);
            if let Some(picked) = max_satisfying(&candidates, &range) {
                let key = version_to_string(&picked);
                if let Some(v) = self.versions.get(key.as_str()) {
                    return Ok(v);
                }
            }
        }
        Err(GurokuError::NoMatchingVersion { name: self.name.clone(), spec: spec.to_owned() })
    }
}

// ---------------------------------------------------------------------------
// Registry client decisions
// ---------------------------------------------------------------------------

/// The scope of a scoped package name: `@scope/name` has scope `scope`.
pub open spec fn scope_spec(name: Seq<char>) -> Option<Seq<char>> {
    if name.len() > 0 && name[0] == '@' {
        match split_once(name.skip(1), '/') {
            Some((scope, _)) => Some(scope),
            None => None,
        }
    } else {
        None
    }
}

pub fn scope_of(name: &str) -> (r: Option<String>)
    ensures
        match r {
            Some(s) => scope_spec(name@) == Some(s@),
            None => scope_spec(name@) is None,
        },
{
    proof {
        reveal_strlit("@");
        if seq!['@'].is_prefix_of(name@) {
            assert(name@.take(1)[0] == name@[0]);
        }
        if name@.len() > 0 && name@[0] == '@' {
            assert(name@.take(1) =~= seq!['@']);
        }
    }
    let rest = strip_prefix_str(name, "@")?;
    let (scope, _) = split_once_char(rest.as_str(), '/')?;
    Some(scope)
}

/// The registry-facing settings of a client: the default registry (a URL
/// serialization), the `.npmrc` entries, and whether the metadata cache is
/// consulted.
#[derive(Debug)]
pub struct RegistryClient {
    base: String,
    npmrc: Npmrc,
    use_http_cache: bool,
}

/// What a metadata request is made of.
#[derive(Debug)]
pub struct MetadataRequest {
    pub url: String,
    /// Sent as `Authorization: Bearer <token>`.
    pub bearer: Option<String>,
    /// Sent as `If-None-Match`.
    pub if_none_match: Option<String>,
}

/// What to do with the registry's answer to a metadata request.
#[derive(Debug)]
pub enum MetadataAnswer {
    /// Parse this body (the cached copy, after a 304).
    UseCached(Vec<u8>),
    /// Ask again without the cache (a 304 with nothing cached).
    FetchUncached,
    /// Parse the response body, and store it in the cache when asked to.
    Accept { store_in_cache: bool },
    /// The registry answered with an error status.
    HttpStatus(u16),
}

/// The registry that serves `name`, given the default registry and the
/// `.npmrc` entries: the scope's registry when one is set and parses.
pub open spec fn registry_for_spec(base: Seq<char>, entries: Map<Seq<char>, String>, name: Seq<char>) -> Seq<char> {
    match scope_spec(name) {
        Some(scope) => if entries.contains_key(scoped_key(scope)) && url_parsed(
            entries[scoped_key(scope)]@,
        ) is Some {
            url_parsed(entries[scoped_key(scope)]@)->0
        } else {
            base
        },
        None => base,
    }
}

impl RegistryClient {
    pub closed spec fn base_spec(&self) -> Seq<char> {
        self.base@
    }

    pub closed spec fn entries_spec(&self) -> StrMap<String> {
        self.npmrc.entries
    }

    pub closed spec fn uses_cache(&self) -> bool {
        self.use_http_cache
    }

    /// A client of the registry at `base` (a URL), with no `.npmrc` entries
    /// and the metadata cache on.
    pub fn new(base: &str) -> (r: Result<RegistryClient>)
        ensures
            r is Ok == url_parsed(base@) is Some,
            r matches Ok(c) ==> c.base_spec() == url_parsed(base@)->0 && c.entries_spec()@
                == Map::<Seq<char>, String>::empty() && c.uses_cache(),
    {
        match url_parse(base) {
            Ok(u) => Ok(RegistryClient { base: u, npmrc: Npmrc::new(), use_http_cache: true }),
            Err(e) => Err(GurokuError::Url(e)),
        }
    }

    pub fn with_default_registry() -> (r: Result<RegistryClient>)
        ensures
            r is Ok == url_parsed(DEFAULT_REGISTRY@) is Some,
            r matches Ok(c) ==> c.base_spec() == url_parsed(DEFAULT_REGISTRY@)->0 && c.uses_cache(),
    {
        Self::new(DEFAULT_REGISTRY)
    }

    /// A client configured by `.npmrc` entries: its `registry` (or the
    /// default registry) is the base, and the entries are kept for scoped
    /// registries and tokens.
    pub fn from_npmrc(npmrc: Npmrc) -> (r: Result<RegistryClient>)
        ensures
            ({
                let reg = if npmrc.entries@.contains_key(crate::npmrc::lit_registry()) {
                    npmrc.entries@[crate::npmrc::lit_registry()]@
                } else {
                    DEFAULT_REGISTRY@
                };
                &&& r is Ok == url_parsed(reg) is Some
                &&& r matches Ok(c) ==> c.base_spec() == url_parsed(reg)->0 && c.entries_spec()
                    == npmrc.entries && c.uses_cache()
            }),
    {
        let base = match url_parse(npmrc.registry()) {
            Ok(u) => u,
            Err(e) => return Err(GurokuError::Url(e)),
        };
        Ok(RegistryClient { base, npmrc, use_http_cache: true })
    }

    pub fn without_http_cache(self) -> (r: RegistryClient)
        ensures
            r.base_spec() == self.base_spec(),
            r.entries_spec() == self.entries_spec(),
            !r.uses_cache(),
    {
        RegistryClient { use_http_cache: false, ..self }
    }

    /// The default registry URL (used by `guroku audit`).
    pub fn registry_base(&self) -> (r: &str)
        ensures
            r@ == self.base_spec(),
    {
        self.base.as_str()
    }

    pub fn use_http_cache(&self) -> (b: bool)
        ensures
            b == self.uses_cache(),
    {
        self.use_http_cache
    }

    /// The registry for `name`: scoped names consult the `<scope>:registry`
    /// setting first; everything else uses the default base.
    pub fn registry_for(&self, name: &str) -> (r: String)
        ensures
            r@ == registry_for_spec(self.base_spec(), self.entries_spec()@, name@),
    {
        if let Some(scope) = scope_of(name) {
            if let Some(url) = self.npmrc.scoped_registry(scope.as_str()) {
                if let Ok(parsed) = url_parse(url) {
                    return parsed;
                }
            }
        }
        self.base.clone()
    }

    /// The bearer token for a URL: the `_authToken` of its host.
    pub fn auth_for(&self, url: &str) -> (r: Option<String>)
        ensures
            match url_host(url@) {
                Some(h) => match token_for(self.entries_spec().pairs(), trim_end_char(h, '/')) {
                    Some(t) => r matches Some(x) && x@ == t,
                    None => r is None,
                },
                None => r is None,
            },
    {
        match url_host_str(url) {
            Some(h) => match self.npmrc.auth_token(h.as_str()) {
                Some(t) => Some(t.to_owned()),
                None => None,
            },
            None => None,
        }
    }

    /// The request for the metadata of `name`: the package URL on its
    /// registry, its bearer token, and the ETag of the cached copy when the
    /// cache is on.
    pub fn metadata_request(&self, name: &str, cached: &Option<CachedMetadata>) -> (r: Result<MetadataRequest>)
        ensures
            ({
                let base = registry_for_spec(self.base_spec(), self.entries_spec()@, name@);
                match url_joined(base, name@) {
                    Some(u) => r matches Ok(req) && req.url@ == u && (match url_host(u) {
                        Some(h) => opt_view(req.bearer) == token_for(
                            self.entries_spec().pairs(),
                            trim_end_char(h, '/'),
                        ),
                        None => req.bearer is None,
                    }) && opt_view(req.if_none_match) == (if self.uses_cache() {
                        match cached {
                            Some(c) => opt_view(c.etag),
                            None => None,
                        }
                    } else {
                        None
                    }),
                    None => r matches Err(GurokuError::Url(_)),
                }
            }),
    {
        let base = self.registry_for(name);
        let url = match url_join(base.as_str(), name) {
            Ok(u) => u,
            Err(e) => return Err(GurokuError::Url(e)),
        };
        let bearer = self.auth_for(url.as_str());
        let if_none_match = if self.use_http_cache {
            match cached {
                Some(c) => copy_opt(&c.etag),
                None => None,
            }
        } else {
            None
        };
        Ok(MetadataRequest { url, bearer, if_none_match })
    }

    /// The request for the metadata of `name` that bypasses the cache.
    pub fn metadata_request_uncached(&self, name: &str) -> (r: Result<MetadataRequest>)
        ensures
            ({
                let base = registry_for_spec(self.base_spec(), self.entries_spec()@, name@);
                match url_joined(base, name@) {
                    Some(u) => r matches Ok(req) && req.url@ == u && req.if_none_match is None,
                    None => r matches Err(GurokuError::Url(_)),
                }
            }),
    {
        let base = self.registry_for(name);
        let url = match url_join(base.as_str(), name) {
            Ok(u) => u,
            Err(e) => return Err(GurokuError::Url(e)),
        };
        let bearer = self.auth_for(url.as_str());
        Ok(MetadataRequest { url, bearer, if_none_match: None })
    }

    /// What to make of the registry's status for a metadata request: a 304
    /// uses the cached body (or asks again uncached when there is none), a
    /// 404 is `PackageNotFound`, another error status fails, and a success
    /// is parsed and cached when the cache is on.
    pub fn metadata_answer(&self, name: &str, status: u16, cached: Option<CachedMetadata>) -> (r: Result<MetadataAnswer>)
        ensures
            status == 304 ==> match cached {
                Some(c) => r matches Ok(MetadataAnswer::UseCached(b)) && b@ == c.body@,
                None => r matches Ok(MetadataAnswer::FetchUncached),
            },
            status == 404 ==> (r matches Err(GurokuError::PackageNotFound { name: n }) && n@ == name@),
            status != 304 && status != 404 && 400 <= status ==> (r matches Ok(MetadataAnswer::HttpStatus(s)) && s == status),
            status != 304 && status != 404 && status < 400 ==> (r matches Ok(MetadataAnswer::Accept { store_in_cache }) && store_in_cache == self.uses_cache()),
    {
        if status == 304 {
            return match cached {
                Some(c) => Ok(MetadataAnswer::UseCached(c.body)),
                None => Ok(MetadataAnswer::FetchUncached),
            };
        }
        if status == 404 {
            return Err(GurokuError::PackageNotFound { name: name.to_owned() });
        }
        if status >= 400 {
            return Ok(MetadataAnswer::HttpStatus(status));
        }
        Ok(MetadataAnswer::Accept { store_in_cache: self.use_http_cache })
    }

}

} // verus!
