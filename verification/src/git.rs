//! Git dependencies: where a clone lives and which `git` commands make it.
//!
//! Clones land at `~/.guroku/cache/git/<key>/<ref>/`, keyed by a short hash
//! of the repository URL. A shallow clone of the branch or tag is tried
//! first; if it fails, a full clone followed by `git checkout <ref>` handles
//! an arbitrary commit-ish. Running the commands is the caller's part.
use crate::integrity::{hex_encode, hex_text, sha256_of_text, sha256_text};
use crate::paths::{join_path, path_join};
use crate::specs::GitRef;
use crate::text::{concat2, push_char, str_eq};
use vstd::prelude::*;

verus! {

/// The cache key of a repository URL: the hex of the first 8 bytes of the
/// SHA-256 of its UTF-8 bytes.
pub fn url_key(url: &str) -> (r: String)
    ensures
        r@ == hex_text(sha256_text(url@).take(8)),
{
    let digest = sha256_of_text(url);
    let mut head: Vec<u8> = Vec::new();
    let mut i: usize = 0;
    while i < 8
        invariant
            digest@.len() == 32,
            i <= 8,
            head@ == digest@.take(i as int),
        decreases 8 - i,
    {
        head.push(digest[i]);
        assert(head@ =~= digest@.take(i + 1));
        i = i + 1;
    }
    hex_encode(head.as_slice())
}

/// The characters a ref keeps in a directory name.
pub open spec fn ref_char_ok(c: char) -> bool {
    ('a' <= c && c <= 'z') || ('A' <= c && c <= 'Z') || ('0' <= c && c <= '9') || c == '_' || c
        == '-' || c == '.'
}

/// A ref with every character that a directory name should not hold
/// replaced by `_`.
pub open spec fn mapped_ref(r: Seq<char>) -> Seq<char> {
    Seq::new(r.len(), |i: int| if ref_char_ok(r[i]) { r[i] } else { '_' })
}

/// A ref made safe for a directory name of its own: other characters
/// become `_`, and a result that would not be a directory of its own (empty,
/// `.` or `..`) becomes as many `_` (one for the empty ref).
pub open spec fn safe_ref_spec(r: Seq<char>) -> Seq<char> {
    let m = mapped_ref(r);
    if m.len() == 0 {
        seq!['_']
    } else if m == seq!['.'] {
        seq!['_']
    } else if m == seq!['.', '.'] {
        seq!['_', '_']
    } else {
        m
    }
}

/// A ref's directory is one plain name: it stays directly inside its
/// repository's directory.
pub proof fn lemma_safe_ref_plain(r: Seq<char>)
    ensures
        crate::paths::plain_name(safe_ref_spec(r)),
{
    let m = mapped_ref(r);
    assert(!m.contains('/')) by {
        if m.contains('/') {
            let k = choose|k: int| 0 <= k < m.len() && m[k] == '/';
        }
    }
    let s = safe_ref_spec(r);
    assert(!s.contains('/')) by {
        if s.contains('/') {
            let k = choose|k: int| 0 <= k < s.len() && s[k] == '/';
            if m.len() == 0 || m == seq!['.'] || m == seq!['.', '.'] {
            } else {
                assert(m[k] == '/');
            }
        }
    }
    assert(seq!['_'] != seq!['.']) by {
        assert(seq!['_'][0] != seq!['.'][0]);
    }
    assert(seq!['_', '_'] != seq!['.', '.']) by {
        assert(seq!['_', '_'][0] != seq!['.', '.'][0]);
    }
}

/// The directory name of a ref under its repository's directory.
pub fn safe_ref(r: &str) -> (s: String)
    ensures
        s@ == safe_ref_spec(r@),
{
    proof {
        reveal_strlit("_");
        reveal_strlit("__");
        reveal_strlit(".");
        reveal_strlit("..");
    }
    let n = r.unicode_len();
    let mut out = String::new();
    let mut i: usize = 0;
    while i < n
        invariant
            n == r@.len(),
            i <= n,
            out@ == mapped_ref(r@).take(i as int),
        decreases n - i,
    {
        let c = r.get_char(i);
        let ok = ('a' <= c && c <= 'z') || ('A' <= c && c <= 'Z') || ('0' <= c && c <= '9') || c
            == '_' || c == '-' || c == '.';
        if ok {
            push_char(&mut out, c);
        } else {
            push_char(&mut out, '_');
        }
        assert(out@ =~= mapped_ref(r@).take(i + 1));
        i = i + 1;
    }
    assert(mapped_ref(r@).take(n as int) =~= mapped_ref(r@));
    if n == 0 || str_eq(out.as_str(), ".") {
        assert("_"@ =~= seq!['_']);
        assert("."@ =~= seq!['.']);
        return "_".to_owned();
    }
    if str_eq(out.as_str(), "..") {
        assert("__"@ =~= seq!['_', '_']);
        assert(".."@ =~= seq!['.', '.']);
        return "__".to_owned();
    }
    assert("."@ =~= seq!['.']);
    assert(".."@ =~= seq!['.', '.']);
    out
}

/// The arguments without the empty ones.
pub open spec fn drop_empty(args: Seq<Seq<char>>) -> Seq<Seq<char>>
    decreases args.len(),
{
    if args.len() == 0 {
        Seq::empty()
    } else if args.last().len() == 0 {
        drop_empty(args.drop_last())
    } else {
        drop_empty(args.drop_last()).push(args.last())
    }
}

pub open spec fn args_view(v: Seq<String>) -> Seq<Seq<char>> {
    v.map_values(|s: String| s@)
}

/// Append copies of `src` to `out`, in order.
pub fn append_strings(out: &mut Vec<String>, src: &Vec<String>)
    ensures
        args_view(final(out)@) == args_view(old(out)@) + args_view(src@),
{
    let n = src.len();
    let mut i: usize = 0;
    let ghost start = args_view(out@);
    while i < n
        invariant
            n == src@.len(),
            i <= n,
            args_view(out@) == start + args_view(src@.take(i as int)),
        decreases n - i,
    {
        let ghost prev = args_view(out@);
        out.push(src[i].clone());
        assert(args_view(out@) =~= prev.push(src@[i as int]@));
        assert(args_view(src@.take(i + 1)) =~= args_view(src@.take(i as int)).push(src@[i as int]@));
        i = i + 1;
    }
    assert(src@.take(n as int) =~= src@);
}

/// Drop empty arguments before running `git`.
pub fn non_empty_args(args: &Vec<String>) -> (r: Vec<String>)
    ensures
        args_view(r@) == drop_empty(args_view(args@)),
{
    let n = args.len();
    let mut out: Vec<String> = Vec::new();
    let mut i: usize = 0;
    while i < n
        invariant
            n == args@.len(),
            i <= n,
            args_view(out@) == drop_empty(args_view(args@.take(i as int))),
        decreases n - i,
    {
        proof {
            assert(args_view(args@.take(i + 1)).drop_last() =~= args_view(args@.take(i as int)));
            assert(args_view(args@.take(i + 1)).last() == args@[i as int]@);
        }
        if args[i].unicode_len() > 0 {
            let ghost prev = args_view(out@);
            out.push(args[i].clone());
            assert(args_view(out@) =~= prev.push(args@[i as int]@));
        }
        i = i + 1;
    }
    assert(args@.take(n as int) =~= args@);
    out
}

/// Arguments joined by spaces (the command line in error messages).
pub open spec fn joined(args: Seq<Seq<char>>) -> Seq<char>
    decreases args.len(),
{
    if args.len() == 0 {
        Seq::empty()
    } else if args.len() == 1 {
        args[0]
    } else {
        joined(args.drop_last()) + seq![' '] + args.last()
    }
}

pub fn join_args(args: &Vec<String>) -> (r: String)
    ensures
        r@ == joined(args_view(args@)),
{
    let n = args.len();
    let mut out = String::new();
    let mut i: usize = 0;
    while i < n
        invariant
            n == args@.len(),
            i <= n,
            out@ == joined(args_view(args@.take(i as int))),
        decreases n - i,
    {
        proof {
            assert(args_view(args@.take(i + 1)).drop_last() =~= args_view(args@.take(i as int)));
            assert(args_view(args@.take(i + 1)).last() == args@[i as int]@);
        }
        if i > 0 {
            push_char(&mut out, ' ');
        }
        out = concat2(out.as_str(), args[i].as_str());
        proof {
            if i == 0 {
                assert(args_view(args@.take(1)) =~= seq![args@[0]@]);
            }
        }
        i = i + 1;
    }
    assert(args@.take(n as int) =~= args@);
    out
}

/// Everything needed to clone a git dependency.
#[derive(Debug)]
pub struct ClonePlan {
    /// `<cache_root>/<url key>/<safe ref>`.
    pub target: String,
    /// The file whose presence says the clone is complete.
    pub marker: String,
    /// The requested ref, or `HEAD`.
    pub revision: String,
    /// The shallow clone, tried first.
    pub primary: Vec<String>,
    /// The full clone, when the shallow one fails.
    pub fallback: Vec<String>,
    /// The checkout run in `target` after the full clone (none for `HEAD`).
    pub checkout: Option<Vec<String>>,
}

pub open spec fn head_text() -> Seq<char> {
    seq!['H', 'E', 'A', 'D']
}

pub open spec fn plan_revision(g: GitRef) -> Seq<char> {
    match g.revision {
        Some(r) => r@,
        None => head_text(),
    }
}

pub open spec fn plan_target(cache_root: Seq<char>, g: GitRef) -> Seq<char> {
    join_path(
        join_path(cache_root, hex_text(sha256_text(g.url@).take(8))),
        safe_ref_spec(plan_revision(g)),
    )
}

fn strings3(a: &str, b: &str, c: &str) -> (r: Vec<String>)
    ensures
        args_view(r@) == seq![a@, b@, c@],
{
    let mut v: Vec<String> = Vec::new();
    v.push(a.to_owned());
    v.push(b.to_owned());
    v.push(c.to_owned());
    assert(args_view(v@) =~= seq![a@, b@, c@]);
    v
}

/// How to clone `git_ref` under `cache_root` (the git cache directory).
pub fn clone_plan(git_ref: &GitRef, cache_root: &str) -> (p: ClonePlan)
    ensures
        p.revision@ == plan_revision(*git_ref),
        p.target@ == plan_target(cache_root@, *git_ref),
        p.marker@ == join_path(p.target@, ".git-ready"@),
        args_view(p.primary@) == drop_empty(
            if plan_revision(*git_ref) != head_text() {
                seq!["clone"@, "--depth"@, "1"@, "--branch="@ + plan_revision(*git_ref), git_ref.url@, p.target@]
            } else {
                seq!["clone"@, "--depth"@, "1"@, git_ref.url@, p.target@]
            },
        ),
        args_view(p.fallback@) == drop_empty(seq!["clone"@, git_ref.url@, p.target@]),
        plan_revision(*git_ref) != head_text() ==> (p.checkout matches Some(c) && args_view(c@)
            == seq!["checkout"@, "--quiet"@, plan_revision(*git_ref)]),
        plan_revision(*git_ref) == head_text() ==> p.checkout is None,
{
    proof {
        reveal_strlit("HEAD");
        assert("HEAD"@ =~= head_text());
    }
    let key = url_key(git_ref.url.as_str());
    let revision = match &git_ref.revision {
        Some(r) => r.clone(),
        None => "HEAD".to_owned(),
    };
    let dir = path_join(cache_root, key.as_str());
    let sr = safe_ref(revision.as_str());
    let target = path_join(dir.as_str(), sr.as_str());
    let marker = path_join(target.as_str(), ".git-ready");
    let is_head = str_eq(revision.as_str(), "HEAD");
    let mut primary: Vec<String> = Vec::new();
    primary.push("clone".to_owned());
    primary.push("--depth".to_owned());
    primary.push("1".to_owned());
    if !is_head {
        primary.push(concat2("--branch=", revision.as_str()));
    }
    primary.push(git_ref.url.clone());
    primary.push(target.clone());
    proof {
        if !is_head {
            assert(args_view(primary@) =~= seq!["clone"@, "--depth"@, "1"@, "--branch="@ + revision@, git_ref.url@, target@]);
        } else {
            assert(args_view(primary@) =~= seq!["clone"@, "--depth"@, "1"@, git_ref.url@, target@]);
        }
    }
    let primary = non_empty_args(&primary);
    let fallback = non_empty_args(&strings3("clone", git_ref.url.as_str(), target.as_str()));
    let checkout = if is_head {
        None
    } else {
        Some(strings3("checkout", "--quiet", revision.as_str()))
    };
    ClonePlan { target, marker, revision, primary, fallback, checkout }
}

} // verus!
