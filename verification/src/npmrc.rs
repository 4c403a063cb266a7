//! Minimal `.npmrc` reader.
//!
//! The keys in use:
//!   - `registry=...`: the default registry URL
//!   - `<scope>:registry=...`: a scoped registry override
//!   - `//host/:_authToken=...`: a bearer token for a registry host
//!
//! Lookup order matches npm/pnpm: project-local `<cwd>/.npmrc` overrides
//! `<HOME>/.npmrc`. Comments (`;` or `#`) are skipped. Values are not
//! interpolated for `${VAR}` references.
use crate::strmap::{text_map, StrMap};
use crate::text::{concat3, ends_with, split, split_char, split_once, split_once_char, strip_prefix, strip_prefix_str, str_eq, trim, trim_char, trim_end_char, trim_end_matches_char, trim_matches_char, trim_start_char, trim_start_matches_char, trim_str};
use vstd::prelude::*;

verus! {

/// The default npm registry.
pub const DEFAULT_REGISTRY: &'static str = "https://registry.npmjs.org";

#[derive(Debug)]
pub struct Npmrc {
    pub entries: StrMap<String>,
}

/// The effect of one line of `.npmrc` on the entries read so far.
pub open spec fn parse_line(m: Map<Seq<char>, Seq<char>>, raw: Seq<char>) -> Map<Seq<char>, Seq<char>> {
    let line = trim(raw);
    if line.len() == 0 || line[0] == ';' || line[0] == '#' {
        m
    } else {
        match split_once(line, '=') {
            Some((k, v)) => if trim(k).len() > 0 {
                m.insert(trim(k), trim_char(trim(v), '"'))
            } else {
                m
            },
            None => m,
        }
    }
}

pub open spec fn parse_lines(lines: Seq<Seq<char>>) -> Map<Seq<char>, Seq<char>>
    decreases lines.len(),
{
    if lines.len() == 0 {
        Map::empty()
    } else {
        parse_line(parse_lines(lines.drop_last()), lines.last())
    }
}

/// The entries of an `.npmrc` text: `key=value` lines, keys and values
/// trimmed and values stripped of surrounding `"`; a later line wins.
pub open spec fn npmrc_entries(text: Seq<char>) -> Map<Seq<char>, Seq<char>> {
    parse_lines(split(text, '\n'))
}

/// Parse the text of an `.npmrc` file.
pub fn parse(text: &str) -> (r: StrMap<String>)
    ensures
        text_map(r@) == npmrc_entries(text@),
{
    let lines = split_char(text, '\n');
    let ghost ls = split(text@, '\n');
    let n = lines.len();
    let mut out: StrMap<String> = StrMap::new();
    let mut i: usize = 0;
    proof {
        assert(text_map(out@) =~= Map::<Seq<char>, Seq<char>>::empty());
    }
    while i < n
        invariant
            n == lines@.len(),
            ls == split(text@, '\n'),
            n == ls.len(),
            forall|j: int| 0 <= j < n ==> #[trigger] lines@[j]@ == ls[j],
            i <= n,
            text_map(out@) == parse_lines(ls.take(i as int)),
        decreases n - i,
    {
        proof {
            assert(ls.take(i + 1).drop_last() =~= ls.take(i as int));
            assert(ls.take(i + 1).last() == lines@[i as int]@);
        }
        let line = trim_str(lines[i].as_str());
        let len = line.unicode_len();
        if len > 0 {
            let c = line.get_char(0);
            if c != ';' && c != '#' {
                if let Some((k, v)) = split_once_char(line.as_str(), '=') {
                    let key = trim_str(k.as_str());
                    if key.unicode_len() > 0 {
                        let tv = trim_str(v.as_str());
                        let val = trim_matches_char(tv.as_str(), '"');
                        let ghost prev = out@;
                        out.insert(key, val);
                        proof {
                            assert(text_map(out@) =~= text_map(prev).insert(key@, val@));
                        }
                    }
                }
            }
        }
        i = i + 1;
    }
    proof {
        assert(ls.take(n as int) =~= ls);
    }
    out
}

pub open spec fn lit_registry() -> Seq<char> {
    seq!['r', 'e', 'g', 'i', 's', 't', 'r', 'y']
}

pub open spec fn lit_scoped_suffix() -> Seq<char> {
    seq![':', 'r', 'e', 'g', 'i', 's', 't', 'r', 'y']
}

pub open spec fn lit_auth_suffix() -> Seq<char> {
    seq![':', '_', 'a', 'u', 't', 'h', 'T', 'o', 'k', 'e', 'n']
}

pub open spec fn lit_slashes() -> Seq<char> {
    seq!['/', '/']
}

/// Whether an entry key is `//<host>/...:_authToken`.
pub open spec fn is_token_key(k: Seq<char>, host: Seq<char>) -> bool {
    match strip_prefix(k, lit_slashes()) {
        Some(rest) => match split_once(rest, '/') {
            Some((h, _)) => h == host && lit_auth_suffix().is_suffix_of(k),
            None => false,
        },
        None => false,
    }
}

/// The value of the first token key (in key order) for `host`.
pub open spec fn token_for(pairs: Seq<(String, String)>, host: Seq<char>) -> Option<Seq<char>>
    decreases pairs.len(),
{
    if pairs.len() == 0 {
        None
    } else if is_token_key(pairs[0].0@, host) {
        Some(pairs[0].1@)
    } else {
        token_for(pairs.drop_first(), host)
    }
}

/// The key of the scoped registry setting of `scope` (with or without `@`).
pub open spec fn scoped_key(scope: Seq<char>) -> Seq<char> {
    seq!['@'] + trim_start_char(scope, '@') + lit_scoped_suffix()
}

impl Npmrc {
    pub fn new() -> (r: Npmrc)
        ensures
            r.entries@ == Map::<Seq<char>, String>::empty(),
    {
        Npmrc { entries: StrMap::new() }
    }

    /// The configured `registry`, or the default registry.
    pub fn registry(&self) -> (r: &str)
        ensures
            r@ == if self.entries@.contains_key(lit_registry()) {
                self.entries@[lit_registry()]@
            } else {
                DEFAULT_REGISTRY@
            },
    {
        proof {
            reveal_strlit("registry");
            assert("registry"@ =~= lit_registry());
        }
        match self.entries.get("registry") {
            Some(v) => v.as_str(),
            None => DEFAULT_REGISTRY,
        }
    }

    /// The registry configured for `scope` (`<@scope>:registry`).
    pub fn scoped_registry(&self, scope: &str) -> (r: Option<&str>)
        ensures
            match r {
                Some(v) => self.entries@.contains_key(scoped_key(scope@)) && v@ == self.entries@[scoped_key(scope@)]@,
                None => !self.entries@.contains_key(scoped_key(scope@)),
            },
    {
        proof {
            reveal_strlit("@");
            reveal_strlit(":registry");
            assert(":registry"@ =~= lit_scoped_suffix());
        }
        let s = trim_start_matches_char(scope, '@');
        let key = concat3("@", s.as_str(), ":registry");
        assert(key@ =~= scoped_key(scope@));
        match self.entries.get(key.as_str()) {
            Some(v) => Some(v.as_str()),
            None => None,
        }
    }

    /// The `_authToken` configured for `registry_host` (trailing `/` ignored),
    /// from the first matching key `//<host>/...:_authToken`.
    pub fn auth_token(&self, registry_host: &str) -> (r: Option<&str>)
        ensures
            match r {
                Some(v) => token_for(self.entries.pairs(), trim_end_char(registry_host@, '/'))
                    == Some(v@),
                None => token_for(self.entries.pairs(), trim_end_char(registry_host@, '/')) is None,
            },
    {
        proof {
            reveal_strlit("//");
            reveal_strlit(":_authToken");
            assert("//"@ =~= lit_slashes());
            assert(":_authToken"@ =~= lit_auth_suffix());
        }
        let host = trim_end_matches_char(registry_host, '/');
        let n = self.entries.len();
        let mut i: usize = 0;
        assert(self.entries.pairs().skip(0) =~= self.entries.pairs());
        while i < n
            invariant
                n == self.entries.pairs().len(),
                i <= n,
                host@ == trim_end_char(registry_host@, '/'),
                "//"@ == lit_slashes(),
                ":_authToken"@ == lit_auth_suffix(),
                token_for(self.entries.pairs(), host@) == token_for(
                    self.entries.pairs().skip(i as int),
                    host@,
                ),
            decreases n - i,
        {
            let k = self.entries.key_at(i);
            proof {
                assert(self.entries.pairs().skip(i as int)[0] == self.entries.pairs()[i as int]);
                assert(self.entries.pairs().skip(i as int).drop_first() =~= self.entries.pairs().skip(
                    i + 1,
                ));
            }
            if let Some(rest) = strip_prefix_str(k.as_str(), "//") {
                if let Some((h, _)) = split_once_char(rest.as_str(), '/') {
                    if str_eq(h.as_str(), host.as_str()) && ends_with(k.as_str(), ":_authToken") {
                        return Some(self.entries.value_at(i).as_str());
                    }
                }
            }
            i = i + 1;
        }
        None
    }

    /// Layer the project `.npmrc` entries over the user's `~/.npmrc`
    /// entries; a file that was absent contributes nothing.
    pub fn layered(user: Option<StrMap<String>>, project: Option<StrMap<String>>) -> (r: Npmrc)
        ensures
            text_map(r.entries@) == (match user {
                Some(u) => text_map(u@),
                None => Map::empty(),
            }).union_prefer_right(
                match project {
                    Some(p) => text_map(p@),
                    None => Map::empty(),
                },
            ),
    {
        let mut merged: StrMap<String> = StrMap::new();
        if let Some(u) = &user {
            merged.extend_strings(u);
        }
        let ghost mid = text_map(merged@);
        if let Some(p) = &project {
            merged.extend_strings(p);
        }
        proof {
            let e = Map::<Seq<char>, Seq<char>>::empty();
            assert(text_map(Map::<Seq<char>, String>::empty()) =~= e);
            if user is Some {
                assert(mid =~= e.union_prefer_right(text_map(user->0@)));
            } else {
                assert(mid =~= e);
            }
            if project is None {
                assert(text_map(merged@) =~= mid.union_prefer_right(e));
            }
        }
        Npmrc { entries: merged }
    }
}

} // verus!
