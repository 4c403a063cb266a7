//! The `package.json` model.
use crate::json::JsonValue;
use crate::strmap::{text_map, StrMap};
use crate::text::{split_once_char, strip_prefix_str, split_once};
use vstd::prelude::*;

verus! {

/// The entries of a map of strings as pairs of texts, in key order.
pub open spec fn text_pairs(s: Seq<(String, String)>) -> Seq<(Seq<char>, Seq<char>)> {
    s.map_values(|p: (String, String)| (p.0@, p.1@))
}

#[derive(Debug)]
pub struct Manifest {
    pub name: Option<String>,
    pub version: Option<String>,
    pub dependencies: StrMap<String>,
    pub dev_dependencies: StrMap<String>,
    pub peer_dependencies: StrMap<String>,
    pub optional_dependencies: StrMap<String>,
    pub scripts: StrMap<String>,
    pub bin: Option<JsonValue>,
    pub workspaces: Option<JsonValue>,
    /// `package.json#overrides` (npm 8+).
    pub overrides: StrMap<String>,
    /// `package.json#resolutions` (yarn).
    pub resolutions: StrMap<String>,
    /// Every other top-level field, as its JSON text.
    pub other: StrMap<String>,
}

/// The command name of a single-file `bin`: the package name without its
/// `@scope/` part.
pub open spec fn bin_name(n: Seq<char>) -> Seq<char> {
    if n.len() > 0 && n[0] == '@' {
        match split_once(n.skip(1), '/') {
            Some((_, base)) => base,
            None => n,
        }
    } else {
        n
    }
}

/// The string-valued entries of a JSON object, in key order.
pub open spec fn str_entries(s: Seq<(String, JsonValue)>) -> Seq<(Seq<char>, Seq<char>)>
    decreases s.len(),
{
    if s.len() == 0 {
        Seq::empty()
    } else {
        let prev = str_entries(s.drop_last());
        match s.last().1 {
            JsonValue::Str(v) => prev.push((s.last().0@, v@)),
            _ => prev,
        }
    }
}

/// The string elements of a JSON array, in order.
pub open spec fn str_items(s: Seq<JsonValue>) -> Seq<Seq<char>>
    decreases s.len(),
{
    if s.len() == 0 {
        Seq::empty()
    } else {
        let prev = str_items(s.drop_last());
        match s.last() {
            JsonValue::Str(v) => prev.push(v@),
            _ => prev,
        }
    }
}

pub open spec fn lit_packages() -> Seq<char> {
    seq!['p', 'a', 'c', 'k', 'a', 'g', 'e', 's']
}

/// The entries that the first element of a key-sorted object with key
/// `packages` holds, if it is an array.
pub open spec fn packages_globs(o: StrMap<JsonValue>) -> Seq<Seq<char>> {
    if o@.contains_key(lit_packages()) {
        match o@[lit_packages()] {
            JsonValue::Array(a) => str_items(a@),
            _ => Seq::empty(),
        }
    } else {
        Seq::empty()
    }
}

fn string_items(a: &Vec<JsonValue>) -> (r: Vec<String>)
    ensures
        r@.map_values(|x: String| x@) == str_items(a@),
{
    let n = a.len();
    let mut out: Vec<String> = Vec::new();
    let mut i: usize = 0;
    while i < n
        invariant
            n == a@.len(),
            i <= n,
            out@.map_values(|x: String| x@) == str_items(a@.take(i as int)),
        decreases n - i,
    {
        proof {
            assert(a@.take(i + 1).drop_last() =~= a@.take(i as int));
        }
        match &a[i] {
            JsonValue::Str(s) => {
                out.push(s.clone());
                proof {
                    assert(out@.map_values(|x: String| x@) =~= str_items(a@.take(i as int)).push(
                        s@,
                    ));
                }
            },
            _ => {},
        }
        i = i + 1;
    }
    assert(a@.take(n as int) =~= a@);
    out
}

impl Manifest {
    /// An empty manifest (no fields set).
    pub fn empty() -> (m: Manifest)
        ensures
            m.name is None,
            m.version is None,
            m.dependencies@ == Map::<Seq<char>, String>::empty(),
            m.dev_dependencies@ == Map::<Seq<char>, String>::empty(),
            m.peer_dependencies@ == Map::<Seq<char>, String>::empty(),
            m.optional_dependencies@ == Map::<Seq<char>, String>::empty(),
            m.scripts@ == Map::<Seq<char>, String>::empty(),
            m.bin is None,
            m.workspaces is None,
            m.overrides@ == Map::<Seq<char>, String>::empty(),
            m.resolutions@ == Map::<Seq<char>, String>::empty(),
            m.other@ == Map::<Seq<char>, String>::empty(),
    {
        Manifest {
            name: None,
            version: None,
            dependencies: StrMap::new(),
            dev_dependencies: StrMap::new(),
            peer_dependencies: StrMap::new(),
            optional_dependencies: StrMap::new(),
            scripts: StrMap::new(),
            bin: None,
            workspaces: None,
            overrides: StrMap::new(),
            resolutions: StrMap::new(),
            other: StrMap::new(),
        }
    }

    /// Normalised list of `bin` entries: `(name, relative-path)`.
    /// Handles both forms: `"bin": "./cli.js"` (single, name from the
    /// manifest) and `"bin": { "name": "./cli.js" }`. Empty when absent.
    pub fn bin_entries(&self) -> (r: Vec<(String, String)>)
        ensures
            text_pairs(r@) == match self.bin {
                Some(JsonValue::Str(p)) => match self.name {
                    Some(n) => seq![(bin_name(n@), p@)],
                    None => Seq::empty(),
                },
                Some(JsonValue::Object(o)) => str_entries(o.pairs()),
                _ => Seq::empty(),
            },
    {
        match &self.bin {
            Some(JsonValue::Str(p)) => match &self.name {
                Some(n) => {
                    let base = match strip_prefix_str(n.as_str(), "@") {
                        Some(rest) => match split_once_char(rest.as_str(), '/') {
                            Some((_scope, b)) => b,
                            None => n.clone(),
                        },
                        None => n.clone(),
                    };
                    proof {
                        reveal_strlit("@");
                        if seq!['@'].is_prefix_of(n@) {
                            assert(n@.take(1)[0] == n@[0]);
                        }
                        if n@.len() > 0 && n@[0] == '@' {
                            assert(n@.take(1) =~= seq!['@']);
                        }
                    }
                    let mut out = Vec::new();
                    out.push((base, p.clone()));
                    proof {
                        assert(text_pairs(out@) =~= seq![(bin_name(n@), p@)]);
                    }
                    out
                },
                None => {
                    let out = Vec::new();
                    assert(text_pairs(out@) =~= Seq::empty());
                    out
                },
            },
            Some(JsonValue::Object(o)) => {
                let n = o.len();
                let mut out: Vec<(String, String)> = Vec::new();
                let mut i: usize = 0;
                while i < n
                    invariant
                        n == o.pairs().len(),
                        i <= n,
                        text_pairs(out@) == str_entries(o.pairs().take(i as int)),
                    decreases n - i,
                {
                    proof {
                        assert(o.pairs().take(i + 1).drop_last() =~= o.pairs().take(i as int));
                    }
                    let k = o.key_at(i);
                    match o.value_at(i) {
                        JsonValue::Str(s) => {
                            out.push((k.clone(), s.clone()));
                            proof {
                                assert(text_pairs(out@) =~= str_entries(
                                    o.pairs().take(i as int),
                                ).push((k@, s@)));
                            }
                        },
                        _ => {},
                    }
                    i = i + 1;
                }
                assert(o.pairs().take(n as int) =~= o.pairs());
                out
            },
            _ => {
                let out = Vec::new();
                assert(text_pairs(out@) =~= Seq::empty());
                out
            },
        }
    }

    /// The workspace globs of `package.json#workspaces`: its string items in
    /// the array form, those of its `packages` array in the object form.
    pub open spec fn workspace_globs_spec(&self) -> Seq<Seq<char>> {
        match self.workspaces {
            Some(JsonValue::Array(a)) => str_items(a@),
            Some(JsonValue::Object(o)) => packages_globs(o),
            _ => Seq::empty(),
        }
    }

    /// Normalised list of workspace globs from `package.json#workspaces`.
    /// Accepts the array form (`["packages/*"]`) and the object form
    /// (`{ "packages": ["packages/*"] }`). Empty when absent.
    pub fn workspace_globs(&self) -> (r: Vec<String>)
        ensures
            r@.map_values(|x: String| x@) == self.workspace_globs_spec(),
    {
        match &self.workspaces {
            Some(JsonValue::Array(a)) => string_items(a),
            Some(JsonValue::Object(o)) => {
                proof {
                    reveal_strlit("packages");
                    assert("packages"@ =~= lit_packages());
                }
                match o.get("packages") {
                    Some(JsonValue::Array(a)) => string_items(a),
                    _ => {
                        let out = Vec::new();
                        assert(out@.map_values(|x: String| x@) =~= Seq::<Seq<char>>::empty());
                        out
                    },
                }
            },
            _ => {
                let out = Vec::new();
                assert(out@.map_values(|x: String| x@) =~= Seq::<Seq<char>>::empty());
                out
            },
        }
    }

    /// Set `dependencies[name] = spec`.
    pub fn add_dependency(&mut self, name: &str, spec: &str)
        ensures
            text_map(final(self).dependencies@) == text_map(old(self).dependencies@).insert(
                name@,
                spec@,
            ),
            final(self).dev_dependencies@ == old(self).dev_dependencies@,
            final(self).optional_dependencies@ == old(self).optional_dependencies@,
            final(self).peer_dependencies@ == old(self).peer_dependencies@,
    {
        let v = spec.to_owned();
        self.dependencies.insert(name.to_owned(), v);
        proof {
            assert(text_map(self.dependencies@) =~= text_map(old(self).dependencies@).insert(
                name@,
                spec@,
            ));
        }
    }

    /// Remove `name` from `dependencies`, `devDependencies` and
    /// `optionalDependencies`; true when it was in any of them.
    pub fn remove_dependency(&mut self, name: &str) -> (removed: bool)
        ensures
            final(self).dependencies@ == old(self).dependencies@.remove(name@),
            final(self).dev_dependencies@ == old(self).dev_dependencies@.remove(name@),
            final(self).optional_dependencies@ == old(self).optional_dependencies@.remove(name@),
            final(self).peer_dependencies == old(self).peer_dependencies,
            final(self).name == old(self).name,
            final(self).version == old(self).version,
            final(self).scripts == old(self).scripts,
            final(self).bin == old(self).bin,
            final(self).workspaces == old(self).workspaces,
            final(self).overrides == old(self).overrides,
            final(self).resolutions == old(self).resolutions,
            final(self).other == old(self).other,
            removed == (old(self).dependencies@.contains_key(name@)
                || old(self).dev_dependencies@.contains_key(name@)
                || old(self).optional_dependencies@.contains_key(name@)),
    {
        let a = self.dependencies.remove(name).is_some();
        let b = self.dev_dependencies.remove(name).is_some();
        let c = self.optional_dependencies.remove(name).is_some();
        a || b || c
    }

    /// The dependency maps that the resolver walks: `dependencies` then
    /// `devDependencies`, each in key order. Peer and optional dependencies
    /// are not walked.
    pub fn all_dependencies(&self) -> (r: Vec<(String, String)>)
        ensures
            text_pairs(r@) == text_pairs(self.dependencies.pairs()) + text_pairs(
                self.dev_dependencies.pairs(),
            ),
    {
        let mut out: Vec<(String, String)> = Vec::new();
        let n = self.dependencies.len();
        let mut i: usize = 0;
        while i < n
            invariant
                n == self.dependencies.pairs().len(),
                i <= n,
                text_pairs(out@) == text_pairs(self.dependencies.pairs().take(i as int)),
            decreases n - i,
        {
            let k = self.dependencies.key_at(i).clone();
            let v = self.dependencies.value_at(i).clone();
            out.push((k, v));
            proof {
                let ps = self.dependencies.pairs();
                assert(text_pairs(ps.take(i + 1)) =~= text_pairs(ps.take(i as int)).push(
                    (ps[i as int].0@, ps[i as int].1@),
                ));
                assert(text_pairs(out@) =~= text_pairs(self.dependencies.pairs().take(i + 1)));
            }
            i = i + 1;
        }
        assert(self.dependencies.pairs().take(n as int) =~= self.dependencies.pairs());
        let m = self.dev_dependencies.len();
        let mut j: usize = 0;
        while j < m
            invariant
                m == self.dev_dependencies.pairs().len(),
                j <= m,
                text_pairs(out@) == text_pairs(self.dependencies.pairs()) + text_pairs(
                    self.dev_dependencies.pairs().take(j as int),
                ),
            decreases m - j,
        {
            let k = self.dev_dependencies.key_at(j).clone();
            let v = self.dev_dependencies.value_at(j).clone();
            let ghost prev = text_pairs(out@);
            out.push((k, v));
            proof {
                assert(text_pairs(out@) =~= prev.push((k@, v@)));
                let ps = self.dev_dependencies.pairs();
                assert(text_pairs(ps.take(j + 1)) =~= text_pairs(ps.take(j as int)).push(
                    (ps[j as int].0@, ps[j as int].1@),
                ));
                assert(text_pairs(out@) =~= text_pairs(self.dependencies.pairs()) + text_pairs(
                    self.dev_dependencies.pairs().take(j + 1),
                ));
            }
            j = j + 1;
        }
        assert(self.dev_dependencies.pairs().take(m as int) =~= self.dev_dependencies.pairs());
        out
    }
}

} // verus!
