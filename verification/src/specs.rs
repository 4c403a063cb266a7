//! Classify a `package.json` dependency spec.
//!
//! npm accepts a few shapes besides semver ranges:
//!   - `file:./local`, `file:../path`: a local filesystem path
//!   - `git+https://github.com/u/r.git`, `git+ssh://git@host/...`,
//!     `github:user/repo`, `git://...`, `git@host:...`
//!   - `npm:<real-name>@<spec>`: an alias of another registry package; the
//!     split is on the last `@`, so scoped real names work
//!   - everything else is treated as a semver range.
use crate::error::Result;
use crate::text::{lemma_lead_ws_bound, lemma_lead_ws_is, lemma_trail_ws_is, concat2, concat3, contains_char, is_ws, lead_ws, owned, rsplit_once, rsplit_once_char, starts_with, strip_prefix_str, trail_ws, trim, trim_str};
use vstd::prelude::*;

verus! {

#[derive(Debug)]
pub enum DepSpec {
    /// Standard registry resolution against an npm semver range.
    Range(String),
    /// Local-filesystem path, with the `file:` prefix stripped.
    File(String),
    /// Git repository reference, with an optional ref/branch/commit.
    Git(GitRef),
    /// `npm:<real_name>@<inner>`: install `real_name` under the declared name.
    Alias { real_name: String, inner: Box<DepSpec> },
}

#[derive(Debug)]
pub struct GitRef {
    pub url: String,
    /// Trailing `#<ref>` part of the spec, when present.
    pub revision: Option<String>,
}

/// The value of a `GitRef`.
pub struct GitModel {
    pub url: Seq<char>,
    pub revision: Option<Seq<char>>,
}

/// The value of a `DepSpec`.
pub enum SpecModel {
    Range(Seq<char>),
    File(Seq<char>),
    Git(GitModel),
    Alias { real_name: Seq<char>, inner: Box<SpecModel> },
}

impl View for GitRef {
    type V = GitModel;

    open spec fn view(&self) -> GitModel {
        GitModel {
            url: self.url@,
            revision: match self.revision {
                Some(r) => Some(r@),
                None => None,
            },
        }
    }
}

pub open spec fn spec_model(d: DepSpec) -> SpecModel
    decreases d,
{
    match d {
        DepSpec::Range(r) => SpecModel::Range(r@),
        DepSpec::File(p) => SpecModel::File(p@),
        DepSpec::Git(g) => SpecModel::Git(g@),
        DepSpec::Alias { real_name, inner } => SpecModel::Alias {
            real_name: real_name@,
            inner: Box::new(spec_model(*inner)),
        },
    }
}

impl View for DepSpec {
    type V = SpecModel;

    open spec fn view(&self) -> SpecModel {
        spec_model(*self)
    }
}

pub open spec fn lit_file() -> Seq<char> {
    seq!['f', 'i', 'l', 'e', ':']
}

pub open spec fn lit_git_plus() -> Seq<char> {
    seq!['g', 'i', 't', '+']
}

pub open spec fn lit_git_proto() -> Seq<char> {
    seq!['g', 'i', 't', ':', '/', '/']
}

pub open spec fn lit_git_at() -> Seq<char> {
    seq!['g', 'i', 't', '@']
}

pub open spec fn lit_github() -> Seq<char> {
    seq!['g', 'i', 't', 'h', 'u', 'b', ':']
}

pub open spec fn lit_github_url() -> Seq<char> {
    seq!['h', 't', 't', 'p', 's', ':', '/', '/', 'g', 'i', 't', 'h', 'u', 'b', '.', 'c', 'o', 'm', '/']
}

pub open spec fn lit_npm() -> Seq<char> {
    seq!['n', 'p', 'm', ':']
}

/// A git reference: the text after the last `#` is the revision when it is
/// non-empty and holds no `/` (a `/` suggests a URL fragment instead).
pub open spec fn git_of(s: Seq<char>) -> GitModel {
    match rsplit_once(s, '#') {
        Some((u, r)) => if !r.contains('/') && r.len() > 0 {
            GitModel { url: u, revision: Some(r) }
        } else {
            GitModel { url: s, revision: None }
        },
        None => GitModel { url: s, revision: None },
    }
}

/// What `classify` gives back for a spec string.
#[verifier::opaque]
pub open spec fn classify_spec(spec: Seq<char>) -> SpecModel
    decreases spec.len(),
{
    let s = trim(spec);
    if lit_file().is_prefix_of(s) {
        SpecModel::File(s.skip(5))
    } else if lit_git_plus().is_prefix_of(s) {
        SpecModel::Git(git_of(s.skip(4)))
    } else if lit_git_proto().is_prefix_of(s) || lit_git_at().is_prefix_of(s) {
        SpecModel::Git(git_of(s))
    } else if lit_github().is_prefix_of(s) {
        SpecModel::Git(git_of(lit_github_url() + s.skip(7)))
    } else if lit_npm().is_prefix_of(s) {
        let x = s.skip(4);
        match rsplit_once(x, '@') {
            Some((n, r)) => if n.len() > 0 && r.len() < spec.len() {
                SpecModel::Alias { real_name: n, inner: Box::new(classify_spec(r)) }
            } else {
                SpecModel::Alias { real_name: x, inner: Box::new(SpecModel::Range(Seq::empty())) }
            },
            None => SpecModel::Alias {
                real_name: x,
                inner: Box::new(SpecModel::Range(Seq::empty())),
            },
        }
    } else {
        SpecModel::Range(s)
    }
}

/// The string form of a spec.
pub open spec fn unparse_spec(d: SpecModel) -> Seq<char>
    decreases d,
{
    match d {
        SpecModel::Range(r) => r,
        SpecModel::File(p) => lit_file() + p,
        SpecModel::Git(g) => match g.revision {
            Some(r) => lit_git_plus() + g.url + seq!['#'] + r,
            None => lit_git_plus() + g.url,
        },
        SpecModel::Alias { real_name, inner } => lit_npm() + real_name + seq!['@'] + unparse_spec(
            *inner,
        ),
    }
}

proof fn lemma_trim_len(s: Seq<char>)
    ensures
        trim(s).len() <= s.len(),
        lead_ws(s) + trim(s).len() <= s.len(),
        forall|j: int| 0 <= j < trim(s).len() ==> #[trigger] trim(s)[j] == s[lead_ws(s) + j],
{
    lemma_lead_ws_bound(s);
    let t = s.skip(lead_ws(s) as int);
    lemma_trail_ws_le(t);
}

proof fn lemma_trail_ws_le(s: Seq<char>)
    ensures
        trail_ws(s) <= s.len(),
    decreases s.len(),
{
    if s.len() > 0 && is_ws(s.last()) {
        lemma_trail_ws_le(s.drop_last());
    }
}

fn parse_git(s: &str) -> (g: GitRef)
    ensures
        g@ == git_of(s@),
{
    match rsplit_once_char(s, '#') {
        Some((url, rev)) => {
            if !contains_char(rev.as_str(), '/') && rev.unicode_len() > 0 {
                return GitRef { url, revision: Some(rev) };
            }
        },
        None => {},
    }
    GitRef { url: owned(s), revision: None }
}

/// Classify a dependency spec from `package.json`.
pub fn classify(spec: &str) -> (d: DepSpec)
    ensures
        d@ == classify_spec(spec@),
    decreases spec@.len(),
{
    reveal(classify_spec);
    proof {
        reveal_strlit("file:");
        reveal_strlit("git+");
        reveal_strlit("git://");
        reveal_strlit("git@");
        reveal_strlit("github:");
        reveal_strlit("https://github.com/");
        reveal_strlit("npm:");
        reveal_strlit("");
        lemma_trim_len(spec@);
        assert("https://github.com/"@ =~= lit_github_url());
        assert(""@ =~= Seq::<char>::empty());
        assert("file:"@ =~= lit_file());
        assert("npm:"@ =~= lit_npm());
    }
    let s = trim_str(spec);
    if let Some(rest) = strip_prefix_str(s.as_str(), "file:") {
        return DepSpec::File(rest);
    }
    if let Some(rest) = strip_prefix_str(s.as_str(), "git+") {
        return DepSpec::Git(parse_git(rest.as_str()));
    }
    if starts_with(s.as_str(), "git://") || starts_with(s.as_str(), "git@") {
        return DepSpec::Git(parse_git(s.as_str()));
    }
    if let Some(rest) = strip_prefix_str(s.as_str(), "github:") {
        let url = concat2("https://github.com/", rest.as_str());
        return DepSpec::Git(parse_git(url.as_str()));
    }
    if let Some(x) = strip_prefix_str(s.as_str(), "npm:") {
        proof {
            crate::text::lemma_rfind_props(x@, '@');
        }
        match rsplit_once_char(x.as_str(), '@') {
            Some((n, r)) => {
                if n.unicode_len() > 0 {
                    let inner = classify(r.as_str());
                    return DepSpec::Alias { real_name: n, inner: Box::new(inner) };
                }
            },
            None => {},
        }
        let inner = DepSpec::Range(owned(""));
        assert(inner@ == SpecModel::Range(Seq::empty()));
        return DepSpec::Alias { real_name: x, inner: Box::new(inner) };
    }
    DepSpec::Range(s)
}

/// Turn a `DepSpec` back into a string that classifies to the same spec
/// (see `lemma_classify_unparse`).
pub fn unparse(spec: &DepSpec) -> (r: String)
    ensures
        r@ == unparse_spec(spec@),
    decreases spec,
{
    proof {
        reveal_strlit("file:");
        reveal_strlit("git+");
        reveal_strlit("#");
        reveal_strlit("npm:");
        reveal_strlit("@");
    }
    match spec {
        DepSpec::Range(r) => r.clone(),
        DepSpec::File(p) => concat2("file:", p.as_str()),
        DepSpec::Git(g) => match &g.revision {
            Some(r) => {
                let a = concat3("git+", g.url.as_str(), "#");
                concat2(a.as_str(), r.as_str())
            },
            None => concat2("git+", g.url.as_str()),
        },
        DepSpec::Alias { real_name, inner } => {
            let a = concat3("npm:", real_name.as_str(), "@");
            let b = unparse(inner);
            concat2(a.as_str(), b.as_str())
        },
    }
}

/// Reject specs that are classified but not supported yet. Every current
/// shape is supported, so this always succeeds.
pub fn validate(_spec: &DepSpec) -> (r: Result<()>)
    ensures
        r is Ok,
{
    Ok(())
}


// ---------------------------------------------------------------------------
// Round trip
// ---------------------------------------------------------------------------

/// A string with no whitespace at either end.
pub open spec fn is_trimmed(t: Seq<char>) -> bool {
    t.len() == 0 || (!is_ws(t[0]) && !is_ws(t.last()))
}

proof fn lemma_trim_fixed(t: Seq<char>)
    requires
        is_trimmed(t),
    ensures
        trim(t) == t,
{
    lemma_lead_ws_is(t, 0);
    assert(t.skip(0) =~= t);
    lemma_trail_ws_is(t, 0);
    assert(t.take(t.len() as int) =~= t);
}

proof fn lemma_trim_trimmed(s: Seq<char>)
    ensures
        is_trimmed(trim(s)),
        trim(trim(s)) == trim(s),
{
    lemma_lead_ws_bound(s);
    let t = s.skip(lead_ws(s) as int);
    lemma_trail_ws_bound(t);
    let u = trim(s);
    if u.len() > 0 {
        assert(u[0] == t[0]);
        assert(u.last() == t[t.len() - trail_ws(t) - 1]);
    }
    lemma_trim_fixed(u);
}

proof fn lemma_trail_ws_bound(s: Seq<char>)
    ensures
        trail_ws(s) <= s.len(),
        trail_ws(s) < s.len() ==> !is_ws(s[s.len() - trail_ws(s) - 1]),
    decreases s.len(),
{
    if s.len() > 0 && is_ws(s.last()) {
        lemma_trail_ws_bound(s.drop_last());
        let t = s.drop_last();
        if trail_ws(s) < s.len() {
            assert(s[s.len() - trail_ws(s) - 1] == t[t.len() - trail_ws(t) - 1]);
        }
    }
}

/// The alias branch always recurses on a strictly shorter string.
proof fn lemma_alias_shorter(spec: Seq<char>)
    ensures
        ({
            let s = trim(spec);
            let x = s.skip(4);
            lit_npm().is_prefix_of(s) ==> match rsplit_once(x, '@') {
                Some((n, r)) => r.len() + 5 <= s.len() && s.len() <= spec.len(),
                None => true,
            }
        }),
{
    reveal(classify_spec);
    lemma_trim_len(spec);
    let s = trim(spec);
    let x = s.skip(4);
    if lit_npm().is_prefix_of(s) {
        crate::text::lemma_rfind_props(x, '@');
    }
}

/// Classifying only looks at the trimmed spec.
proof fn lemma_classify_trim(spec: Seq<char>)
    ensures
        classify_spec(trim(spec)) == classify_spec(spec),
{
    reveal(classify_spec);
    lemma_trim_trimmed(spec);
    lemma_alias_shorter(spec);
    lemma_alias_shorter(trim(spec));
}

/// A git reference gives back its text when joined again.
proof fn lemma_git_rejoin(x: Seq<char>)
    ensures
        match git_of(x).revision {
            Some(r) => git_of(x).url + seq!['#'] + r == x,
            None => git_of(x).url == x,
        },
{
    crate::text::lemma_rfind_props(x, '#');
    if let Some(i) = crate::text::rfind(x, '#') {
        let u = x.take(i);
        let r = x.skip(i + 1);
        assert(u + seq!['#'] + r =~= x);
    }
}

/// The text that `unparse` gives for a git reference.
pub open spec fn git_text(g: GitModel) -> Seq<char> {
    match g.revision {
        Some(r) => g.url + seq!['#'] + r,
        None => g.url,
    }
}

/// Specs for which the string form classifies back to the same spec: all
/// but aliases with an empty name or of another alias.
pub open spec fn reparses(d: SpecModel) -> bool {
    match d {
        SpecModel::Alias { real_name, inner } => real_name.len() > 0 && !(*inner is Alias),
        _ => true,
    }
}

proof fn lemma_prefix_concat(p: Seq<char>, x: Seq<char>)
    ensures
        p.is_prefix_of(p + x),
        (p + x).skip(p.len() as int) == x,
{
    assert((p + x).take(p.len() as int) =~= p);
    assert((p + x).skip(p.len() as int) =~= x);
}

proof fn lemma_not_prefix(p: Seq<char>, t: Seq<char>, i: int)
    requires
        0 <= i < p.len(),
        i < t.len(),
        p[i] != t[i],
    ensures
        !p.is_prefix_of(t),
{
    if p.is_prefix_of(t) {
        assert(t.take(p.len() as int)[i] == t[i]);
    }
}

/// How a trimmed string that starts with `git+` classifies.
proof fn lemma_classify_git_plus(t: Seq<char>)
    requires
        is_trimmed(t),
        lit_git_plus().is_prefix_of(t),
    ensures
        classify_spec(t) == SpecModel::Git(git_of(t.skip(4))),
{
    reveal(classify_spec);
    lemma_trim_fixed(t);
    assert(t[0] == 'g');
    lemma_not_prefix(lit_file(), t, 0);
}

/// A spec written as `git://...` or `git@...` (after trimming) names a git
/// repository, never a range: it classifies as `Git`, whose URL followed by
/// `#` and the revision (when there is one) gives back the trimmed spec,
/// the revision being the non-empty text after the last `#` when that text
/// holds no `/`.
pub proof fn lemma_git_forms_classify_as_git(spec: Seq<char>)
    requires
        seq!['g', 'i', 't', ':', '/', '/'].is_prefix_of(trim(spec)) || seq!['g', 'i', 't', '@'].is_prefix_of(
            trim(spec),
        ),
    ensures
        classify_spec(spec) matches SpecModel::Git(g) && (match g.revision {
            Some(r) => g.url + seq!['#'] + r,
            None => g.url,
        }) == trim(spec) && (g.revision matches Some(r) ==> r.len() > 0 && !r.contains('/') && !r.contains(
            '#',
        )),
{
    reveal(classify_spec);
    let s = trim(spec);
    assert(s.len() >= 4);
    assert(s[0] == s.take(4)[0]);
    assert(s[3] == s.take(4)[3]);
    assert(s[0] == 'g');
    assert(s[3] == ':' || s[3] == '@');
    lemma_not_prefix(lit_file(), s, 0);
    lemma_not_prefix(lit_git_plus(), s, 3);
    assert(lit_git_proto() == seq!['g', 'i', 't', ':', '/', '/']);
    assert(lit_git_at() == seq!['g', 'i', 't', '@']);
    assert(classify_spec(spec) == SpecModel::Git(git_of(s)));
    lemma_git_rejoin(s);
    crate::text::lemma_rfind_props(s, '#');
    if let Some(i) = crate::text::rfind(s, '#') {
        let r = s.skip(i + 1);
        if r.contains('#') {
            let j = choose|j: int| 0 <= j < r.len() && r[j] == '#';
            assert(s[i + 1 + j] == r[j]);
        }
    }
}

/// A string `git+<x>` with `x` trimmed and non-empty, and how it classifies.
proof fn lemma_git_plus_text(x: Seq<char>)
    requires
        is_trimmed(x),
        x.len() > 0,
    ensures
        is_trimmed(lit_git_plus() + x),
        classify_spec(lit_git_plus() + x) == SpecModel::Git(git_of(x)),
{
    let u = lit_git_plus() + x;
    assert(u[0] == 'g');
    assert(u.last() == x.last());
    lemma_prefix_concat(lit_git_plus(), x);
    lemma_classify_git_plus(u);
}

/// The text of a non-alias spec: trimmed, and free of `@` when the trimmed
/// spec was.
proof fn lemma_unparse_plain_text(spec: Seq<char>)
    requires
        !(classify_spec(spec) is Alias),
    ensures
        is_trimmed(unparse_spec(classify_spec(spec))),
        !trim(spec).contains('@') ==> !unparse_spec(classify_spec(spec)).contains('@'),
{
    reveal(classify_spec);
    let s = trim(spec);
    lemma_trim_trimmed(spec);
    let d = classify_spec(spec);
    let u = unparse_spec(d);
    if lit_file().is_prefix_of(s) {
        assert(u =~= s);
    } else if lit_git_plus().is_prefix_of(s) {
        lemma_git_rejoin(s.skip(4));
        assert(u =~= lit_git_plus() + git_text(git_of(s.skip(4))));
        assert(u =~= s);
    } else if lit_git_proto().is_prefix_of(s) || lit_git_at().is_prefix_of(s) {
        lemma_git_rejoin(s);
        assert(u =~= lit_git_plus() + s);
        assert(u[0] == 'g');
        assert(u.last() == s.last());
        assert forall|j: int| 0 <= j < u.len() && u[j] == '@' implies s.contains('@') by {
            assert(u[j] == s[j - 4]);
        }
    } else if lit_github().is_prefix_of(s) {
        let url = lit_github_url() + s.skip(7);
        lemma_git_rejoin(url);
        assert(u =~= lit_git_plus() + url);
        assert(u[0] == 'g');
        if s.len() > 7 {
            assert(u.last() == s.last());
        }
        assert forall|j: int| 0 <= j < u.len() && u[j] == '@' implies s.contains('@') by {
            if j >= 23 {
                assert(u[j] == s[j - 23 + 7]);
            }
        }
    } else if lit_npm().is_prefix_of(s) {
    } else {
        assert(u == s);
    }
}

/// A non-alias spec classifies back from its text.
proof fn lemma_unparse_plain(spec: Seq<char>)
    requires
        !(classify_spec(spec) is Alias),
    ensures
        classify_spec(unparse_spec(classify_spec(spec))) == classify_spec(spec),
{
    reveal(classify_spec);
    let s = trim(spec);
    lemma_trim_trimmed(spec);
    lemma_classify_trim(spec);
    let d = classify_spec(spec);
    let u = unparse_spec(d);
    if lit_file().is_prefix_of(s) {
        assert(u =~= s);
    } else if lit_git_plus().is_prefix_of(s) {
        lemma_git_rejoin(s.skip(4));
        assert(u =~= lit_git_plus() + git_text(git_of(s.skip(4))));
        assert(u =~= s);
    } else if lit_git_proto().is_prefix_of(s) || lit_git_at().is_prefix_of(s) {
        lemma_git_rejoin(s);
        assert(u =~= lit_git_plus() + s);
        lemma_git_plus_text(s);
    } else if lit_github().is_prefix_of(s) {
        let url = lit_github_url() + s.skip(7);
        lemma_git_rejoin(url);
        assert(u =~= lit_git_plus() + url);
        assert(url[0] == 'h');
        if s.len() > 7 {
            assert(url.last() == s.last());
        }
        lemma_git_plus_text(url);
    } else if lit_npm().is_prefix_of(s) {
    } else {
        assert(u == s);
    }
}

/// How `npm:<n>@<w>` classifies when `w` is trimmed and has no `@`.
proof fn lemma_classify_empty()
    ensures
        classify_spec(Seq::empty()) == SpecModel::Range(Seq::empty()),
{
    reveal(classify_spec);
    let e = Seq::<char>::empty();
    assert(trim(e) =~= e);
}

/// How a trimmed string that starts with `npm:` classifies.
proof fn lemma_classify_npm(t: Seq<char>)
    requires
        is_trimmed(t),
        lit_npm().is_prefix_of(t),
    ensures
        classify_spec(t) == match rsplit_once(t.skip(4), '@') {
            Some((n, r)) => if n.len() > 0 && r.len() < t.len() {
                SpecModel::Alias { real_name: n, inner: Box::new(classify_spec(r)) }
            } else {
                SpecModel::Alias { real_name: t.skip(4), inner: Box::new(SpecModel::Range(Seq::empty())) }
            },
            None => SpecModel::Alias {
                real_name: t.skip(4),
                inner: Box::new(SpecModel::Range(Seq::empty())),
            },
        },
{
    reveal(classify_spec);
    lemma_trim_fixed(t);
    assert(t[0] == 'n');
    lemma_not_prefix(lit_file(), t, 0);
    lemma_not_prefix(lit_git_plus(), t, 0);
    lemma_not_prefix(lit_git_proto(), t, 0);
    lemma_not_prefix(lit_git_at(), t, 0);
    lemma_not_prefix(lit_github(), t, 0);
}

proof fn lemma_classify_alias_text(n: Seq<char>, w: Seq<char>)
    requires
        n.len() > 0,
        is_trimmed(w),
        !w.contains('@'),
    ensures
        classify_spec(lit_npm() + n + seq!['@'] + w) == (SpecModel::Alias {
            real_name: n,
            inner: Box::new(classify_spec(w)),
        }),
{
    let u = lit_npm() + n + seq!['@'] + w;
    assert(u[0] == 'n');
    if w.len() > 0 {
        assert(u.last() == w.last());
    } else {
        assert(u.last() == '@');
    }
    assert(u =~= lit_npm() + (n + seq!['@'] + w));
    lemma_prefix_concat(lit_npm(), n + seq!['@'] + w);
    lemma_classify_npm(u);
    let y = u.skip(4);
    assert(y =~= n + seq!['@'] + w);
    assert(y[n.len() as int] == '@');
    assert forall|j: int| n.len() < j < y.len() implies y[j] != '@' by {
        assert(y[j] == w[j - n.len() - 1]);
    }
    crate::text::lemma_rfind_is(y, '@', n.len() as int);
    assert(y.take(n.len() as int) =~= n);
    assert(y.skip((n.len() + 1) as int) =~= w);
}

/// What follows the last `@` holds no `@`, trimmed or not.
proof fn lemma_after_last_at(x: Seq<char>)
    ensures
        rsplit_once(x, '@') matches Some((n, r)) ==> !trim(r).contains('@'),
{
    crate::text::lemma_rfind_props(x, '@');
    if let Some((n, r)) = rsplit_once(x, '@') {
        assert forall|j: int| 0 <= j < trim(r).len() implies trim(r)[j] != '@' by {
            lemma_trim_len(r);
            let k = lead_ws(r) + j;
            assert(trim(r)[j] == r[k]);
            let i = crate::text::rfind(x, '@')->0;
            assert(r[k] == x[i + 1 + k]);
        }
    }
}

/// Where the parts of an alias come from.
proof fn lemma_alias_parts(spec: Seq<char>)
    requires
        classify_spec(spec) is Alias,
    ensures
        ({
            let x = trim(spec).skip(4);
            let d = classify_spec(spec);
            lit_npm().is_prefix_of(trim(spec)) && match rsplit_once(x, '@') {
                Some((n, r)) => if n.len() > 0 {
                    d->real_name == n && *d->inner == classify_spec(r)
                } else {
                    d->real_name == x && *d->inner == SpecModel::Range(Seq::empty())
                },
                None => d->real_name == x && *d->inner == SpecModel::Range(Seq::empty()),
            }
        }),
{
    reveal(classify_spec);
    lemma_alias_shorter(spec);
}

proof fn lemma_alias_roundtrip(spec: Seq<char>)
    requires
        classify_spec(spec) is Alias,
        reparses(classify_spec(spec)),
    ensures
        classify_spec(unparse_spec(classify_spec(spec))) == classify_spec(spec),
{
    let d = classify_spec(spec);
    lemma_alias_parts(spec);
    let s = trim(spec);
    let x = s.skip(4);
    let n = d->real_name;
    let inner = *d->inner;
    let w = unparse_spec(inner);
    let u = unparse_spec(d);
    assert(u =~= lit_npm() + n + seq!['@'] + w);
    crate::text::lemma_rfind_props(x, '@');
    match rsplit_once(x, '@') {
        Some((n0, r)) => {
            if n0.len() > 0 {
                lemma_unparse_plain_text(r);
                lemma_unparse_plain(r);
                lemma_after_last_at(x);
                lemma_classify_alias_text(n, w);
            } else {
                assert(w =~= Seq::<char>::empty());
                lemma_classify_alias_text(n, w);
                lemma_classify_empty();
            }
        },
        None => {
            assert(w =~= Seq::<char>::empty());
            lemma_classify_alias_text(n, w);
            lemma_classify_empty();
        },
    }
}

/// Turning a classified spec back into a string and classifying it again
/// gives the same spec, for every spec but an alias with an empty name or an
/// alias of another alias.
pub proof fn lemma_classify_unparse(spec: Seq<char>)
    requires
        reparses(classify_spec(spec)),
    ensures
        classify_spec(unparse_spec(classify_spec(spec))) == classify_spec(spec),
{
    if classify_spec(spec) is Alias {
        lemma_alias_roundtrip(spec);
    } else {
        lemma_unparse_plain(spec);
    }
}

} // verus!
