//! Paths as text, with the Unix semantics of `PathBuf::push` and
//! `Path::components`.
use crate::text::{concat2, concat3, split, split_char, str_eq};
use vstd::prelude::*;

verus! {

/// `PathBuf::push` (and `Path::join`) on Unix: an absolute segment replaces
/// the path; otherwise a `/` is put between them unless the path is empty
/// or already ends in `/`.
pub open spec fn join_path(base: Seq<char>, seg: Seq<char>) -> Seq<char> {
    if seg.len() > 0 && seg[0] == '/' {
        seg
    } else if base.len() == 0 || base.last() == '/' {
        base + seg
    } else {
        base + seq!['/'] + seg
    }
}

pub fn path_join(base: &str, seg: &str) -> (r: String)
    ensures
        r@ == join_path(base@, seg@),
{
    proof {
        reveal_strlit("/");
    }
    let n = base.unicode_len();
    let m = seg.unicode_len();
    if m > 0 && seg.get_char(0) == '/' {
        seg.to_owned()
    } else if n == 0 || base.get_char(n - 1) == '/' {
        concat2(base, seg)
    } else {
        concat3(base, "/", seg)
    }
}

/// A path component.
#[derive(Debug)]
pub enum Component {
    RootDir,
    CurDir,
    ParentDir,
    Normal(String),
}

pub enum ComponentModel {
    RootDir,
    CurDir,
    ParentDir,
    Normal(Seq<char>),
}

impl View for Component {
    type V = ComponentModel;

    open spec fn view(&self) -> ComponentModel {
        match self {
            Component::RootDir => ComponentModel::RootDir,
            Component::CurDir => ComponentModel::CurDir,
            Component::ParentDir => ComponentModel::ParentDir,
            Component::Normal(s) => ComponentModel::Normal(s@),
        }
    }
}

/// The components of the `/`-separated segments: empty segments and `.`
/// are skipped, `..` is the parent.
pub open spec fn segment_components(segs: Seq<Seq<char>>) -> Seq<ComponentModel>
    decreases segs.len(),
{
    if segs.len() == 0 {
        Seq::empty()
    } else {
        let prev = segment_components(segs.drop_last());
        let s = segs.last();
        if s.len() == 0 || s == seq!['.'] {
            prev
        } else if s == seq!['.', '.'] {
            prev.push(ComponentModel::ParentDir)
        } else {
            prev.push(ComponentModel::Normal(s))
        }
    }
}

/// `Path::components` on Unix: a leading `/` is the root, a leading `.` is
/// kept as the current directory, repeated separators and interior `.` are
/// normalized away.
pub open spec fn components(p: Seq<char>) -> Seq<ComponentModel> {
    let segs = split(p, '/');
    let lead = if p.len() > 0 && p[0] == '/' {
        seq![ComponentModel::RootDir]
    } else if segs.len() > 0 && segs[0] == seq!['.'] {
        seq![ComponentModel::CurDir]
    } else {
        Seq::empty()
    };
    lead + segment_components(segs)
}

pub open spec fn comps_view(v: Seq<Component>) -> Seq<ComponentModel> {
    v.map_values(|c: Component| c@)
}

pub fn path_components(p: &str) -> (r: Vec<Component>)
    ensures
        comps_view(r@) == components(p@),
{
    proof {
        reveal_strlit(".");
        reveal_strlit("..");
        assert("."@ =~= seq!['.']);
        assert(".."@ =~= seq!['.', '.']);
        crate::text::lemma_split_nonempty(p@, '/');
    }
    let segs = split_char(p, '/');
    let mut out: Vec<Component> = Vec::new();
    let n = p.unicode_len();
    let ghost want = if p@.len() > 0 && p@[0] == '/' {
        seq![ComponentModel::RootDir]
    } else if split(p@, '/').len() > 0 && split(p@, '/')[0] == seq!['.'] {
        seq![ComponentModel::CurDir]
    } else {
        Seq::<ComponentModel>::empty()
    };
    proof {
        assert(segs@[0]@ == split(p@, '/')[0]);
    }
    if n > 0 && p.get_char(0) == '/' {
        out.push(Component::RootDir);
        assert(comps_view(out@).len() == 1);
        assert(comps_view(out@)[0] == ComponentModel::RootDir);
        assert(comps_view(out@) =~= want);
    } else if segs.len() > 0 && str_eq(segs[0].as_str(), ".") {
        out.push(Component::CurDir);
        assert(!(p@.len() > 0 && p@[0] == '/'));
        assert(split(p@, '/')[0] == seq!['.']);
        assert(comps_view(out@).len() == 1);
        assert(comps_view(out@)[0] == ComponentModel::CurDir);
        assert(comps_view(out@) =~= seq![ComponentModel::CurDir]);
        assert(split(p@, '/').len() > 0);
        assert(want == seq![ComponentModel::CurDir]);
    } else {
        assert(!(p@.len() > 0 && p@[0] == '/'));
        assert(split(p@, '/').len() > 0);
        assert(segs@[0]@ != "."@);
        assert(!(split(p@, '/')[0] == seq!['.']));
        assert(want == Seq::<ComponentModel>::empty());
        assert(comps_view(out@) =~= want);
    }
    let ghost lead = comps_view(out@);
    let ghost sv = split(p@, '/');
    let m = segs.len();
    let mut i: usize = 0;
    proof {
        assert(sv.take(0) =~= Seq::<Seq<char>>::empty());
        assert(comps_view(out@) =~= lead + segment_components(sv.take(0)));
    }
    while i < m
        invariant
            m == segs@.len(),
            sv == split(p@, '/'),
            m == sv.len(),
            forall|j: int| 0 <= j < m ==> #[trigger] segs@[j]@ == sv[j],
            i <= m,
            "."@ == seq!['.'],
            ".."@ == seq!['.', '.'],
            comps_view(out@) == lead + segment_components(sv.take(i as int)),
        decreases m - i,
    {
        let s = &segs[i];
        proof {
            assert(sv.take(i + 1).drop_last() =~= sv.take(i as int));
            assert(sv.take(i + 1).last() == s@);
        }
        let ghost prev = comps_view(out@);
        if s.unicode_len() == 0 || str_eq(s.as_str(), ".") {
        } else if str_eq(s.as_str(), "..") {
            out.push(Component::ParentDir);
            proof {
                assert(comps_view(out@) =~= prev.push(ComponentModel::ParentDir));
            }
        } else {
            out.push(Component::Normal(s.clone()));
            proof {
                assert(comps_view(out@) =~= prev.push(ComponentModel::Normal(s@)));
            }
        }
        i = i + 1;
    }
    proof {
        assert(sv.take(m as int) =~= sv);
    }
    out
}

// ---------------------------------------------------------------------------
// Byte lengths
// ---------------------------------------------------------------------------

/// The number of bytes of a character in UTF-8.
pub open spec fn utf8_len(c: char) -> nat {
    let n = c as u32;
    if n < 0x80 {
        1
    } else if n < 0x800 {
        2
    } else if n < 0x10000 {
        3
    } else {
        4
    }
}

/// The number of bytes of a text in UTF-8 (`str::len`).
pub open spec fn byte_len(s: Seq<char>) -> nat
    decreases s.len(),
{
    if s.len() == 0 {
        0
    } else {
        byte_len(s.drop_last()) + utf8_len(s.last())
    }
}

pub fn char_utf8_len(c: char) -> (n: usize)
    ensures
        n == utf8_len(c),
{
    let x = c as u32;
    if x < 0x80 {
        1
    } else if x < 0x800 {
        2
    } else if x < 0x10000 {
        3
    } else {
        4
    }
}

/// Whether the UTF-8 byte length of `s` is below `limit`.
pub fn byte_len_below(s: &str, limit: usize) -> (b: bool)
    requires
        limit <= 16,
    ensures
        b == (byte_len(s@) < limit),
{
    if limit == 0 {
        return false;
    }
    let n = s.unicode_len();
    let mut total: usize = 0;
    let mut i: usize = 0;
    assert(s@.take(0) =~= Seq::<char>::empty());
    while i < n
        invariant
            n == s@.len(),
            i <= n,
            limit <= 16,
            total == byte_len(s@.take(i as int)),
            total < limit,
        decreases n - i,
    {
        proof {
            assert(s@.take(i + 1).drop_last() =~= s@.take(i as int));
        }
        let c = s.get_char(i);
        total = total + char_utf8_len(c);
        if total >= limit {
            proof {
                lemma_byte_len_mono(s@, i + 1);
            }
            return false;
        }
        i = i + 1;
    }
    assert(s@.take(n as int) =~= s@);
    true
}

pub proof fn lemma_byte_len_mono(s: Seq<char>, k: int)
    requires
        0 <= k <= s.len(),
    ensures
        byte_len(s.take(k)) <= byte_len(s),
    decreases s.len() - k,
{
    if k < s.len() {
        lemma_byte_len_mono(s, k + 1);
        assert(s.take(k + 1).drop_last() =~= s.take(k));
    } else {
        assert(s.take(k) =~= s);
    }
}

/// A plain name: not empty, not `.` or `..`, and without `/`.
pub open spec fn plain_name(s: Seq<char>) -> bool {
    s.len() > 0 && s != seq!['.'] && s != seq!['.', '.'] && !s.contains('/')
}

proof fn lemma_segment_components_plain(segs: Seq<Seq<char>>)
    requires
        forall|j: int| 0 <= j < segs.len() ==> !(#[trigger] segs[j]).contains('/'),
    ensures
        forall|i: int|
            0 <= i < segment_components(segs).len() ==> match #[trigger] segment_components(segs)[i] {
                ComponentModel::Normal(n) => plain_name(n),
                ComponentModel::ParentDir => true,
                _ => false,
            },
    decreases segs.len(),
{
    if segs.len() > 0 {
        let p = segs.drop_last();
        assert forall|j: int| 0 <= j < p.len() implies !(#[trigger] p[j]).contains('/') by {
            assert(p[j] == segs[j]);
        }
        lemma_segment_components_plain(p);
        assert(!segs[segs.len() - 1].contains('/'));
    }
}

/// Every component of a path but a leading root or `.` is `..` or a plain
/// name.
pub proof fn lemma_components_plain(p: Seq<char>)
    ensures
        forall|i: int|
            0 <= i < components(p).len() ==> match #[trigger] components(p)[i] {
                ComponentModel::Normal(n) => plain_name(n),
                _ => true,
            },
{
    crate::text::lemma_split_pieces(p, '/');
    let segs = split(p, '/');
    lemma_segment_components_plain(segs);
    let lead = if p.len() > 0 && p[0] == '/' {
        seq![ComponentModel::RootDir]
    } else if segs.len() > 0 && segs[0] == seq!['.'] {
        seq![ComponentModel::CurDir]
    } else {
        Seq::<ComponentModel>::empty()
    };
    assert(components(p) == lead + segment_components(segs));
    assert forall|i: int| 0 <= i < components(p).len() implies match #[trigger] components(p)[i] {
        ComponentModel::Normal(n) => plain_name(n),
        _ => true,
    } by {
        if i >= lead.len() {
            assert(components(p)[i] == segment_components(segs)[i - lead.len()]);
        }
    }
}

} // verus!
