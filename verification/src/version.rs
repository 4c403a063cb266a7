//! npm semantic versions and ranges.
//!
//! Parsing and range matching are done by `node_semver`; versions are held
//! here as plain values so that precedence, rendering and the choice of the
//! highest satisfying version are proved.
use crate::error::{GurokuError, Result};
use crate::strmap::{key_lt, lemma_key_lt_asymmetric, lemma_key_lt_total, lemma_key_lt_transitive};
use crate::text::{dec, trim, trim_str, u64_to_string, concat2};
use vstd::prelude::*;

verus! {

#[verifier::external_type_specification]
#[verifier::external_body]
pub struct ExSemverRange(node_semver::Range);

/// A pre-release or build identifier.
#[derive(Debug, Clone)]
pub enum Identifier {
    Numeric(u64),
    AlphaNumeric(String),
}

/// The mathematical value of an identifier.
pub enum IdentModel {
    Num(u64),
    Alnum(Seq<char>),
}

impl View for Identifier {
    type V = IdentModel;

    open spec fn view(&self) -> IdentModel {
        match self {
            Identifier::Numeric(n) => IdentModel::Num(*n),
            Identifier::AlphaNumeric(s) => IdentModel::Alnum(s@),
        }
    }
}

/// A semantic version, as `node_semver` parses it.
#[derive(Debug, Clone)]
pub struct Version {
    pub major: u64,
    pub minor: u64,
    pub patch: u64,
    pub build: Vec<Identifier>,
    pub pre_release: Vec<Identifier>,
}

/// The mathematical value of a version.
pub struct VersionModel {
    pub major: u64,
    pub minor: u64,
    pub patch: u64,
    pub build: Seq<IdentModel>,
    pub pre: Seq<IdentModel>,
}

pub open spec fn idents_view(s: Seq<Identifier>) -> Seq<IdentModel> {
    s.map_values(|i: Identifier| i@)
}

impl View for Version {
    type V = VersionModel;

    open spec fn view(&self) -> VersionModel {
        VersionModel {
            major: self.major,
            minor: self.minor,
            patch: self.patch,
            build: idents_view(self.build@),
            pre: idents_view(self.pre_release@),
        }
    }
}

// ---------------------------------------------------------------------------
// Precedence
// ---------------------------------------------------------------------------

/// Identifier order: numeric identifiers sort before alphanumeric ones,
/// numbers by value, strings lexicographically.
pub open spec fn ident_lt(a: IdentModel, b: IdentModel) -> bool {
    match (a, b) {
        (IdentModel::Num(x), IdentModel::Num(y)) => x < y,
        (IdentModel::Num(_), IdentModel::Alnum(_)) => true,
        (IdentModel::Alnum(_), IdentModel::Num(_)) => false,
        (IdentModel::Alnum(x), IdentModel::Alnum(y)) => key_lt(x, y),
    }
}

/// Lexicographic order on identifier lists; a proper prefix sorts first.
pub open spec fn idents_lt(a: Seq<IdentModel>, b: Seq<IdentModel>) -> bool
    decreases a.len(),
{
    if a.len() == 0 {
        b.len() > 0
    } else if b.len() == 0 {
        false
    } else if ident_lt(a[0], b[0]) {
        true
    } else if a[0] == b[0] {
        idents_lt(a.drop_first(), b.drop_first())
    } else {
        false
    }
}

/// Semver precedence: major, minor, patch, then a release sorts after any
/// of its pre-releases, and pre-releases compare by their identifiers.
/// Build metadata does not take part.
pub open spec fn version_lt(a: VersionModel, b: VersionModel) -> bool {
    if a.major != b.major {
        a.major < b.major
    } else if a.minor != b.minor {
        a.minor < b.minor
    } else if a.patch != b.patch {
        a.patch < b.patch
    } else if a.pre.len() == 0 {
        false
    } else if b.pre.len() == 0 {
        true
    } else {
        idents_lt(a.pre, b.pre)
    }
}

/// Versions of equal precedence (they differ at most in build metadata).
pub open spec fn version_equiv(a: VersionModel, b: VersionModel) -> bool {
    a.major == b.major && a.minor == b.minor && a.patch == b.patch && a.pre == b.pre
}

pub proof fn lemma_ident_lt_total(a: IdentModel, b: IdentModel)
    ensures
        a == b || ident_lt(a, b) || ident_lt(b, a),
        ident_lt(a, b) ==> !ident_lt(b, a) && a != b,
{
    match (a, b) {
        (IdentModel::Alnum(x), IdentModel::Alnum(y)) => {
            lemma_key_lt_total(x, y);
            if key_lt(x, y) {
                lemma_key_lt_asymmetric(x, y);
            }
        },
        _ => {},
    }
}

pub proof fn lemma_ident_lt_transitive(a: IdentModel, b: IdentModel, c: IdentModel)
    requires
        ident_lt(a, b),
        ident_lt(b, c),
    ensures
        ident_lt(a, c),
{
    match (a, b, c) {
        (IdentModel::Alnum(x), IdentModel::Alnum(y), IdentModel::Alnum(z)) => {
            lemma_key_lt_transitive(x, y, z);
        },
        _ => {},
    }
}

pub proof fn lemma_idents_lt_irreflexive(a: Seq<IdentModel>)
    ensures
        !idents_lt(a, a),
    decreases a.len(),
{
    if a.len() > 0 {
        lemma_ident_lt_total(a[0], a[0]);
        lemma_idents_lt_irreflexive(a.drop_first());
    }
}

pub proof fn lemma_idents_lt_transitive(a: Seq<IdentModel>, b: Seq<IdentModel>, c: Seq<IdentModel>)
    requires
        idents_lt(a, b),
        idents_lt(b, c),
    ensures
        idents_lt(a, c),
    decreases a.len(),
{
    if a.len() > 0 && b.len() > 0 && c.len() > 0 {
        lemma_ident_lt_total(a[0], b[0]);
        lemma_ident_lt_total(b[0], c[0]);
        if ident_lt(a[0], b[0]) && ident_lt(b[0], c[0]) {
            lemma_ident_lt_transitive(a[0], b[0], c[0]);
        } else if a[0] == b[0] && b[0] == c[0] {
            lemma_idents_lt_transitive(a.drop_first(), b.drop_first(), c.drop_first());
        }
    }
}

pub proof fn lemma_idents_lt_total(a: Seq<IdentModel>, b: Seq<IdentModel>)
    ensures
        a == b || idents_lt(a, b) || idents_lt(b, a),
    decreases a.len(),
{
    if a.len() > 0 && b.len() > 0 {
        lemma_ident_lt_total(a[0], b[0]);
        if a[0] == b[0] {
            lemma_idents_lt_total(a.drop_first(), b.drop_first());
            if a.drop_first() == b.drop_first() {
                assert(a =~= seq![a[0]] + a.drop_first());
                assert(b =~= seq![b[0]] + b.drop_first());
            }
        }
    } else if a.len() == 0 && b.len() == 0 {
        assert(a =~= b);
    }
}

/// Precedence is a strict order.
pub proof fn lemma_version_lt_irreflexive(a: VersionModel)
    ensures
        !version_lt(a, a),
{
    lemma_idents_lt_irreflexive(a.pre);
}

pub proof fn lemma_version_lt_transitive(a: VersionModel, b: VersionModel, c: VersionModel)
    requires
        version_lt(a, b),
        version_lt(b, c),
    ensures
        version_lt(a, c),
{
    if a.major == b.major && b.major == c.major && a.minor == b.minor && b.minor == c.minor
        && a.patch == b.patch && b.patch == c.patch && a.pre.len() > 0 && b.pre.len() > 0
        && c.pre.len() > 0 {
        lemma_idents_lt_transitive(a.pre, b.pre, c.pre);
    }
}

/// Any two versions are ordered one way or the other, or of equal precedence.
pub proof fn lemma_version_lt_total(a: VersionModel, b: VersionModel)
    ensures
        version_lt(a, b) || version_lt(b, a) || version_equiv(a, b),
{
    lemma_idents_lt_total(a.pre, b.pre);
}

/// Versions of equal precedence are interchangeable in comparisons.
pub proof fn lemma_version_equiv_lt(a: VersionModel, b: VersionModel, c: VersionModel)
    requires
        version_equiv(a, b),
    ensures
        version_lt(a, c) == version_lt(b, c),
        version_lt(c, a) == version_lt(c, b),
{
}

// ---------------------------------------------------------------------------
// Rendering
// ---------------------------------------------------------------------------

pub open spec fn ident_text(i: IdentModel) -> Seq<char> {
    match i {
        IdentModel::Num(n) => dec(n as nat),
        IdentModel::Alnum(s) => s,
    }
}

/// `a.b.c` joined by `.` and each prefixed, when non-empty, by `lead`.
pub open spec fn idents_text(ids: Seq<IdentModel>) -> Seq<char>
    decreases ids.len(),
{
    if ids.len() == 0 {
        Seq::empty()
    } else if ids.len() == 1 {
        ident_text(ids[0])
    } else {
        idents_text(ids.drop_last()) + seq!['.'] + ident_text(ids.last())
    }
}

/// The `Display` form of a version: `major.minor.patch[-pre][+build]`.
pub open spec fn version_text(v: VersionModel) -> Seq<char> {
    dec(v.major as nat) + seq!['.'] + dec(v.minor as nat) + seq!['.'] + dec(v.patch as nat) + (
    if v.pre.len() > 0 {
        seq!['-'] + idents_text(v.pre)
    } else {
        Seq::empty()
    }) + (if v.build.len() > 0 {
        seq!['+'] + idents_text(v.build)
    } else {
        Seq::empty()
    })
}

fn ident_to_string(i: &Identifier) -> (r: String)
    ensures
        r@ == ident_text(i@),
{
    match i {
        Identifier::Numeric(n) => u64_to_string(*n),
        Identifier::AlphaNumeric(s) => s.clone(),
    }
}

fn idents_to_string(ids: &Vec<Identifier>) -> (r: String)
    ensures
        r@ == idents_text(idents_view(ids@)),
{
    proof {
        reveal_strlit(".");
    }
    let n = ids.len();
    let mut out = String::new();
    let mut i: usize = 0;
    while i < n
        invariant
            n == ids@.len(),
            i <= n,
            out@ == idents_text(idents_view(ids@.take(i as int))),
        decreases n - i,
    {
        let t = ident_to_string(&ids[i]);
        proof {
            reveal_strlit(".");
            let s = idents_view(ids@.take(i + 1));
            assert(s.drop_last() =~= idents_view(ids@.take(i as int)));
            assert(s.last() == ids@[i as int]@);
        }
        if i > 0 {
            out = concat2(out.as_str(), ".");
        }
        out = concat2(out.as_str(), t.as_str());
        proof {
            if i == 0 {
                assert(idents_view(ids@.take(0)) =~= Seq::<IdentModel>::empty());
                assert(out@ =~= ident_text(ids@[0]@));
            } else {
                assert(out@ =~= idents_text(idents_view(ids@.take(i as int))) + seq!['.']
                    + ident_text(ids@[i as int]@));
            }
        }
        i = i + 1;
    }
    assert(ids@.take(n as int) =~= ids@);
    out
}

/// `version.to_string()`.
pub fn version_to_string(v: &Version) -> (r: String)
    ensures
        r@ == version_text(v@),
{
    proof {
        reveal_strlit(".");
        reveal_strlit("-");
        reveal_strlit("+");
    }
    let mut out = u64_to_string(v.major);
    out = concat2(out.as_str(), ".");
    let mi = u64_to_string(v.minor);
    out = concat2(out.as_str(), mi.as_str());
    out = concat2(out.as_str(), ".");
    let pa = u64_to_string(v.patch);
    out = concat2(out.as_str(), pa.as_str());
    let ghost base = out@;
    if v.pre_release.len() > 0 {
        let p = idents_to_string(&v.pre_release);
        out = concat2(out.as_str(), "-");
        out = concat2(out.as_str(), p.as_str());
    }
    let ghost with_pre = out@;
    if v.build.len() > 0 {
        let b = idents_to_string(&v.build);
        out = concat2(out.as_str(), "+");
        out = concat2(out.as_str(), b.as_str());
    }
    proof {
        let pre_part = if v@.pre.len() > 0 {
            seq!['-'] + idents_text(v@.pre)
        } else {
            Seq::<char>::empty()
        };
        let build_part = if v@.build.len() > 0 {
            seq!['+'] + idents_text(v@.build)
        } else {
            Seq::<char>::empty()
        };
        assert(with_pre =~= base + pre_part);
        assert(out@ =~= with_pre + build_part);
        assert(base =~= dec(v.major as nat) + seq!['.'] + dec(v.minor as nat) + seq!['.'] + dec(
            v.patch as nat,
        ));
    }
    out
}

// ---------------------------------------------------------------------------
// Comparing
// ---------------------------------------------------------------------------

fn ident_less(a: &Identifier, b: &Identifier) -> (r: bool)
    ensures
        r == ident_lt(a@, b@),
{
    match (a, b) {
        (Identifier::Numeric(x), Identifier::Numeric(y)) => *x < *y,
        (Identifier::Numeric(_), Identifier::AlphaNumeric(_)) => true,
        (Identifier::AlphaNumeric(_), Identifier::Numeric(_)) => false,
        (Identifier::AlphaNumeric(x), Identifier::AlphaNumeric(y)) => crate::strmap::key_less(
            x.as_str(),
            y.as_str(),
        ),
    }
}

fn ident_same(a: &Identifier, b: &Identifier) -> (r: bool)
    ensures
        r == (a@ == b@),
{
    match (a, b) {
        (Identifier::Numeric(x), Identifier::Numeric(y)) => *x == *y,
        (Identifier::AlphaNumeric(x), Identifier::AlphaNumeric(y)) => crate::text::str_eq(
            x.as_str(),
            y.as_str(),
        ),
        _ => false,
    }
}

proof fn lemma_idents_lt_skip(a: Seq<IdentModel>, b: Seq<IdentModel>, i: int)
    requires
        0 <= i <= a.len(),
        i <= b.len(),
        forall|j: int| 0 <= j < i ==> a[j] == b[j],
    ensures
        idents_lt(a, b) == idents_lt(a.skip(i), b.skip(i)),
    decreases i,
{
    if i > 0 {
        lemma_ident_lt_total(a[0], a[0]);
        assert forall|j: int| 0 <= j < i - 1 implies a.drop_first()[j] == b.drop_first()[j] by {
            assert(a.drop_first()[j] == a[j + 1]);
            assert(b.drop_first()[j] == b[j + 1]);
        }
        lemma_idents_lt_skip(a.drop_first(), b.drop_first(), i - 1);
        assert(a.drop_first().skip(i - 1) =~= a.skip(i));
        assert(b.drop_first().skip(i - 1) =~= b.skip(i));
    } else {
        assert(a.skip(0) =~= a);
        assert(b.skip(0) =~= b);
    }
}

fn idents_less(a: &Vec<Identifier>, b: &Vec<Identifier>) -> (r: bool)
    ensures
        r == idents_lt(idents_view(a@), idents_view(b@)),
{
    let ghost x = idents_view(a@);
    let ghost y = idents_view(b@);
    let n = a.len();
    let m = b.len();
    let mut i: usize = 0;
    while i < n && i < m
        invariant
            n == a@.len(),
            m == b@.len(),
            x == idents_view(a@),
            y == idents_view(b@),
            i <= n,
            i <= m,
            forall|j: int| 0 <= j < i ==> x[j] == y[j],
        decreases n - i,
    {
        if !ident_same(&a[i], &b[i]) {
            proof {
                lemma_idents_lt_skip(x, y, i as int);
                assert(x.skip(i as int)[0] == a@[i as int]@);
                assert(y.skip(i as int)[0] == b@[i as int]@);
            }
            return ident_less(&a[i], &b[i]);
        }
        i = i + 1;
    }
    proof {
        lemma_idents_lt_skip(x, y, i as int);
    }
    i == n && i < m
}

/// Whether `a` has lower precedence than `b`.
pub fn version_less(a: &Version, b: &Version) -> (r: bool)
    ensures
        r == version_lt(a@, b@),
{
    if a.major != b.major {
        a.major < b.major
    } else if a.minor != b.minor {
        a.minor < b.minor
    } else if a.patch != b.patch {
        a.patch < b.patch
    } else if a.pre_release.len() == 0 {
        false
    } else if b.pre_release.len() == 0 {
        true
    } else {
        idents_less(&a.pre_release, &b.pre_release)
    }
}

// ---------------------------------------------------------------------------
// Parsing (node_semver)
// ---------------------------------------------------------------------------

/// What `node_semver::Version::parse` gives back for a string, when it
/// accepts it.
pub uninterp spec fn semver_version_parse(s: Seq<char>) -> Option<VersionModel>;

/// Whether `node_semver::Range::parse` accepts a string.
pub uninterp spec fn semver_range_parses(s: Seq<char>) -> bool;

/// `node_semver::Range::satisfies` for the range parsed from `range` and
/// the version `v`.
pub uninterp spec fn semver_satisfies(range: Seq<char>, v: VersionModel) -> bool;

/// The `Display` form of the range parsed from a string.
pub uninterp spec fn semver_range_text(range: Seq<char>) -> Seq<char>;

/// Calls `node_semver::Version::parse` and copies the fields of the result.
/// The contract ties the result to the string by a name; the grammar of
/// versions is not restated.
#[verifier::external_body]
fn semver_parse_version(s: &str) -> (r: Option<Version>)
    ensures
        r.is_some() == semver_version_parse(s@).is_some(),
        r matches Some(v) ==> semver_version_parse(s@) == Some(v@),
{
    let conv = |ids: &Vec<node_semver::Identifier>| -> Vec<Identifier> {
        ids.iter().map(|i| match i {
            node_semver::Identifier::Numeric(n) => Identifier::Numeric(*n),
            node_semver::Identifier::AlphaNumeric(a) => Identifier::AlphaNumeric(a.clone()),
        }).collect()
    };
    node_semver::Version::parse(s).ok().map(|v| Version { major: v.major, minor: v.minor,
        patch: v.patch, build: conv(&v.build), pre_release: conv(&v.pre_release) })
}

/// Calls `node_semver::Range::parse`; the contract says only whether it
/// succeeded, by a name.
#[verifier::external_body]
fn semver_parse_range(s: &str) -> (r: Option<node_semver::Range>)
    ensures
        r.is_some() == semver_range_parses(s@),
{
    node_semver::Range::parse(s).ok()
}

/// An npm version range, held together with the text it was parsed from.
#[derive(Debug)]
pub struct SemverRange {
    text: String,
    inner: node_semver::Range,
}

impl View for SemverRange {
    type V = Seq<char>;

    closed spec fn view(&self) -> Seq<char> {
        self.text@
    }
}

/// Calls `node_semver::Range::satisfies` on a copy of `v` as a
/// `node_semver::Version`. The result is named by the range's text and the
/// version; the range semantics are not restated.
#[verifier::external_body]
pub(crate) fn range_satisfies(r: &SemverRange, v: &Version) -> (b: bool)
    ensures
        b == semver_satisfies(r@, v@),
{
    let conv = |ids: &Vec<Identifier>| -> Vec<node_semver::Identifier> {
        ids.iter().map(|i| match i {
            Identifier::Numeric(n) => node_semver::Identifier::Numeric(*n),
            Identifier::AlphaNumeric(a) => node_semver::Identifier::AlphaNumeric(a.clone()),
        }).collect()
    };
    r.inner.satisfies(&node_semver::Version { major: v.major, minor: v.minor, patch: v.patch,
        build: conv(&v.build), pre_release: conv(&v.pre_release) })
}

/// The text a range was parsed from.
pub fn range_text(r: &SemverRange) -> (s: String)
    ensures
        s@ == r@,
{
    r.text.clone()
}

/// Calls `Display` of `node_semver::Range` (`range.to_string()`).
#[verifier::external_body]
pub(crate) fn range_to_string(r: &SemverRange) -> (s: String)
    ensures
        s@ == semver_range_text(r@),
{
    r.inner.to_string()
}

/// The text that `parse_range` hands to the range parser: the trimmed spec,
/// or `*` when that is empty.
pub open spec fn range_source(spec: Seq<char>) -> Seq<char> {
    if trim(spec).len() == 0 {
        seq!['*']
    } else {
        trim(spec)
    }
}

/// Parse an npm-style range like `^1.2.3`, `~1.0`, `>=1 <2`, `1.x`,
/// `1.2 || 2.0`, or `*`. The empty string is treated as `*`.
pub fn parse_range(spec: &str) -> (r: Result<SemverRange>)
    ensures
        r is Ok <==> semver_range_parses(range_source(spec@)),
        r matches Ok(range) ==> range@ == range_source(spec@),
        r matches Err(e) ==> e matches GurokuError::InvalidVersionSpec { name, spec: s } && name@
            == Seq::<char>::empty() && s@ == spec@,
{
    let trimmed = trim_str(spec);
    let s = if trimmed.unicode_len() == 0 {
        crate::text::owned("*")
    } else {
        trimmed
    };
    proof {
        reveal_strlit("*");
        assert(s@ == range_source(spec@));
    }
    match semver_parse_range(s.as_str()) {
        Some(inner) => Ok(SemverRange { text: s, inner }),
        None => Err(
            GurokuError::InvalidVersionSpec { name: String::new(), spec: crate::text::owned(spec) },
        ),
    }
}

pub fn parse_version(s: &str) -> (r: Result<Version>)
    ensures
        r is Ok <==> semver_version_parse(s@).is_some(),
        r matches Ok(v) ==> semver_version_parse(s@) == Some(v@),
        r matches Err(e) ==> e matches GurokuError::Other(m) && m@ == seq!['i', 'n', 'v', 'a',
            'l', 'i', 'd', ' ', 'v', 'e', 'r', 's', 'i', 'o', 'n', ':', ' ', '`'] + s@ + seq!['`'],
{
    match semver_parse_version(s) {
        Some(v) => Ok(v),
        None => {
            let m = crate::text::concat3("invalid version: `", s, "`");
            proof {
                reveal_strlit("invalid version: `");
                reveal_strlit("`");
            }
            Err(GurokuError::Other(m))
        },
    }
}

// ---------------------------------------------------------------------------
// Highest satisfying version
// ---------------------------------------------------------------------------

/// The fold that `max_satisfying` computes over the candidates in order:
/// unparseable or unsatisfying candidates are skipped, and a candidate
/// replaces the best so far unless it has lower precedence (so among equal
/// precedence the last one wins, as with `Iterator::max`).
pub open spec fn best_satisfying(cands: Seq<Seq<char>>, range: Seq<char>) -> Option<VersionModel>
    decreases cands.len(),
{
    if cands.len() == 0 {
        None
    } else {
        let prev = best_satisfying(cands.drop_last(), range);
        match semver_version_parse(cands.last()) {
            Some(v) => if semver_satisfies(range, v) {
                match prev {
                    Some(b) => if version_lt(v, b) {
                        Some(b)
                    } else {
                        Some(v)
                    },
                    None => Some(v),
                }
            } else {
                prev
            },
            None => prev,
        }
    }
}

/// A candidate that parses and satisfies the range.
pub open spec fn admissible(c: Seq<char>, range: Seq<char>, v: VersionModel) -> bool {
    semver_version_parse(c) == Some(v) && semver_satisfies(range, v)
}

/// The fold gives a satisfying candidate of highest precedence, and gives
/// nothing only when no candidate parses and satisfies the range.
pub proof fn lemma_best_satisfying_is_max(cands: Seq<Seq<char>>, range: Seq<char>)
    ensures
        match best_satisfying(cands, range) {
            Some(b) => (exists|i: int| 0 <= i < cands.len() && #[trigger] admissible(cands[i], range, b))
                && forall|i: int, v: VersionModel|
                0 <= i < cands.len() && #[trigger] admissible(cands[i], range, v) ==> !version_lt(b, v),
            None => forall|i: int, v: VersionModel|
                0 <= i < cands.len() ==> !#[trigger] admissible(cands[i], range, v),
        },
    decreases cands.len(),
{
    if cands.len() > 0 {
        let init = cands.drop_last();
        lemma_best_satisfying_is_max(init, range);
        let last = cands.last();
        let n = cands.len() - 1;
        assert forall|i: int| 0 <= i < n implies #[trigger] cands[i] == init[i] by {}
        match best_satisfying(cands, range) {
            Some(b) => {
                if let Some(v) = semver_version_parse(last) {
                    if semver_satisfies(range, v) {
                        match best_satisfying(init, range) {
                            Some(p) => {
                                if version_lt(v, p) {
                                    assert(b == p);
                                    let w = choose|i: int|
                                        0 <= i < init.len() && #[trigger] admissible(init[i], range, p);
                                    assert(admissible(cands[w], range, b));
                                    lemma_version_lt_total(v, p);
                                    lemma_version_lt_irreflexive(p);
                                    assert forall|i: int, u: VersionModel|
                                        0 <= i < cands.len() && #[trigger] admissible(cands[i], range, u)
                                        implies !version_lt(b, u) by {
                                        if i == n {
                                            assert(u == v);
                                            if version_lt(p, v) {
                                                lemma_version_lt_transitive(p, v, p);
                                            }
                                        } else {
                                            assert(admissible(init[i], range, u));
                                        }
                                    }
                                } else {
                                    assert(b == v);
                                    assert(admissible(cands[n], range, b));
                                    assert forall|i: int, u: VersionModel|
                                        0 <= i < cands.len() && #[trigger] admissible(cands[i], range, u)
                                        implies !version_lt(b, u) by {
                                        if i == n {
                                            assert(u == v);
                                            lemma_version_lt_irreflexive(v);
                                        } else {
                                            assert(admissible(init[i], range, u));
                                            assert(!version_lt(p, u));
                                            lemma_version_lt_total(v, p);
                                            if version_lt(v, u) {
                                                if version_lt(p, v) {
                                                    lemma_version_lt_transitive(p, v, u);
                                                } else {
                                                    lemma_version_equiv_lt(v, p, u);
                                                }
                                            }
                                        }
                                    }
                                }
                            },
                            None => {
                                assert(b == v);
                                assert(admissible(cands[n], range, b));
                                assert forall|i: int, u: VersionModel|
                                    0 <= i < cands.len() && #[trigger] admissible(cands[i], range, u)
                                    implies !version_lt(b, u) by {
                                    if i == n {
                                        assert(u == v);
                                        lemma_version_lt_irreflexive(v);
                                    } else {
                                        assert(admissible(init[i], range, u));
                                    }
                                }
                            },
                        }
                    } else {
                        let w = choose|i: int| 0 <= i < init.len() && #[trigger] admissible(init[i], range, b);
                        assert(admissible(cands[w], range, b));
                        assert forall|i: int, u: VersionModel|
                            0 <= i < cands.len() && #[trigger] admissible(cands[i], range, u)
                            implies !version_lt(b, u) by {
                            if i != n {
                                assert(admissible(init[i], range, u));
                            }
                        }
                    }
                } else {
                    let w = choose|i: int| 0 <= i < init.len() && #[trigger] admissible(init[i], range, b);
                    assert(admissible(cands[w], range, b));
                    assert forall|i: int, u: VersionModel|
                        0 <= i < cands.len() && #[trigger] admissible(cands[i], range, u)
                        implies !version_lt(b, u) by {
                        if i != n {
                            assert(admissible(init[i], range, u));
                        }
                    }
                }
            },
            None => {
                assert forall|i: int, u: VersionModel|
                    0 <= i < cands.len() implies !#[trigger] admissible(cands[i], range, u) by {
                    if i != n {
                        assert(!admissible(init[i], range, u));
                    }
                }
            },
        }
    }
}

/// Return the highest version among `candidates` that satisfies `range`.
/// Invalid version strings are skipped (npm registries occasionally include
/// malformed entries).
pub fn max_satisfying(candidates: &Vec<String>, range: &SemverRange) -> (r: Option<Version>)
    ensures
        match r {
            Some(v) => best_satisfying(candidates@.map_values(|c: String| c@), range@) == Some(
                v@,
            ),
            None => best_satisfying(candidates@.map_values(|c: String| c@), range@).is_none(),
        },
{
    let ghost cs = candidates@.map_values(|c: String| c@);
    let n = candidates.len();
    let mut best: Option<Version> = None;
    let mut i: usize = 0;
    while i < n
        invariant
            n == candidates@.len(),
            cs == candidates@.map_values(|c: String| c@),
            i <= n,
            match best {
                Some(b) => best_satisfying(cs.take(i as int), range@) == Some(b@),
                None => best_satisfying(cs.take(i as int), range@).is_none(),
            },
        decreases n - i,
    {
        proof {
            assert(cs.take(i + 1).drop_last() =~= cs.take(i as int));
            assert(cs.take(i + 1).last() == candidates@[i as int]@);
        }
        match semver_parse_version(candidates[i].as_str()) {
            Some(v) => {
                if range_satisfies(range, &v) {
                    let replace = match &best {
                        Some(b) => !version_less(&v, b),
                        None => true,
                    };
                    if replace {
                        best = Some(v);
                    }
                }
            },
            None => {},
        }
        i = i + 1;
    }
    proof {
        assert(cs.take(n as int) =~= cs);
    }
    best
}

} // verus!
