//! An ordered map keyed by strings.
//!
//! Entries are kept in a vector sorted strictly by key, in the same order
//! as `BTreeMap<String, _>` (lexicographic by character code, which is the
//! byte order of UTF-8). Iteration by index therefore walks the keys in
//! ascending order, and no key occurs twice.
use vstd::prelude::*;
use vstd::string::*;

verus! {

/// Lexicographic order on character sequences (the order of `String`).
pub open spec fn key_lt(a: Seq<char>, b: Seq<char>) -> bool
    decreases a.len(),
{
    if a.len() == 0 {
        b.len() > 0
    } else if b.len() == 0 {
        false
    } else if a[0] < b[0] {
        true
    } else if a[0] == b[0] {
        key_lt(a.drop_first(), b.drop_first())
    } else {
        false
    }
}

pub proof fn lemma_key_lt_irreflexive(a: Seq<char>)
    ensures
        !key_lt(a, a),
    decreases a.len(),
{
    if a.len() > 0 {
        lemma_key_lt_irreflexive(a.drop_first());
    }
}

pub proof fn lemma_key_lt_transitive(a: Seq<char>, b: Seq<char>, c: Seq<char>)
    requires
        key_lt(a, b),
        key_lt(b, c),
    ensures
        key_lt(a, c),
    decreases a.len(),
{
    if a.len() > 0 && b.len() > 0 && c.len() > 0 {
        if a[0] == b[0] && b[0] == c[0] {
            lemma_key_lt_transitive(a.drop_first(), b.drop_first(), c.drop_first());
        }
    }
}

pub proof fn lemma_key_lt_total(a: Seq<char>, b: Seq<char>)
    ensures
        a == b || key_lt(a, b) || key_lt(b, a),
    decreases a.len(),
{
    if a.len() > 0 && b.len() > 0 {
        if a[0] == b[0] {
            lemma_key_lt_total(a.drop_first(), b.drop_first());
            if a.drop_first() == b.drop_first() {
                assert(a =~= seq![a[0]] + a.drop_first());
                assert(b =~= seq![b[0]] + b.drop_first());
            }
        }
    } else if a.len() == 0 && b.len() == 0 {
        assert(a =~= b);
    }
}

pub proof fn lemma_key_lt_asymmetric(a: Seq<char>, b: Seq<char>)
    requires
        key_lt(a, b),
    ensures
        !key_lt(b, a),
        a != b,
{
    if key_lt(b, a) {
        lemma_key_lt_transitive(a, b, a);
        lemma_key_lt_irreflexive(a);
    }
    lemma_key_lt_irreflexive(a);
}

/// Comparing after a common prefix of length `i`.
pub proof fn lemma_key_lt_skip(a: Seq<char>, b: Seq<char>, i: int)
    requires
        0 <= i <= a.len(),
        i <= b.len(),
        forall|j: int| 0 <= j < i ==> a[j] == b[j],
    ensures
        key_lt(a, b) == key_lt(a.skip(i), b.skip(i)),
    decreases i,
{
    if i > 0 {
        assert forall|j: int| 0 <= j < i - 1 implies a.drop_first()[j] == b.drop_first()[j] by {
            assert(a.drop_first()[j] == a[j + 1]);
            assert(b.drop_first()[j] == b[j + 1]);
        }
        lemma_key_lt_skip(a.drop_first(), b.drop_first(), i - 1);
        assert(a.drop_first().skip(i - 1) =~= a.skip(i));
        assert(b.drop_first().skip(i - 1) =~= b.skip(i));
    } else {
        assert(a.skip(0) =~= a);
        assert(b.skip(0) =~= b);
    }
}

/// Whether `a` sorts strictly before `b`.
pub fn key_less(a: &str, b: &str) -> (r: bool)
    ensures
        r == key_lt(a@, b@),
{
    let n = a.unicode_len();
    let m = b.unicode_len();
    let mut i: usize = 0;
    while i < n && i < m
        invariant
            n == a@.len(),
            m == b@.len(),
            i <= n,
            i <= m,
            forall|j: int| 0 <= j < i ==> a@[j] == b@[j],
        decreases n - i,
    {
        let x = a.get_char(i);
        let y = b.get_char(i);
        if x != y {
            proof {
                lemma_key_lt_skip(a@, b@, i as int);
                assert(a@.skip(i as int)[0] == x);
                assert(b@.skip(i as int)[0] == y);
            }
            return x < y;
        }
        i = i + 1;
    }
    proof {
        lemma_key_lt_skip(a@, b@, i as int);
    }
    i == n && i < m
}

/// Keys strictly ascending.
pub open spec fn keys_sorted<V>(s: Seq<(String, V)>) -> bool {
    forall|i: int, j: int| 0 <= i < j < s.len() ==> key_lt(#[trigger] s[i].0@, #[trigger] s[j].0@)
}

/// The value stored under `k` in an association sequence (first match).
pub open spec fn lookup<V>(s: Seq<(String, V)>, k: Seq<char>) -> Option<V>
    decreases s.len(),
{
    if s.len() == 0 {
        None
    } else if s[0].0@ == k {
        Some(s[0].1)
    } else {
        lookup(s.drop_first(), k)
    }
}

/// The map denoted by an association sequence.
pub open spec fn map_of<V>(s: Seq<(String, V)>) -> Map<Seq<char>, V> {
    Map::new(|k: Seq<char>| lookup(s, k) is Some, |k: Seq<char>| lookup(s, k)->0)
}

pub proof fn lemma_lookup_absent<V>(s: Seq<(String, V)>, k: Seq<char>)
    requires
        forall|i: int| 0 <= i < s.len() ==> (#[trigger] s[i]).0@ != k,
    ensures
        lookup(s, k) is None,
    decreases s.len(),
{
    if s.len() > 0 {
        assert(s[0].0@ != k);
        assert forall|i: int| 0 <= i < s.len() - 1 implies (#[trigger] s.drop_first()[i]).0@
            != k by {
            assert(s.drop_first()[i] == s[i + 1]);
        }
        lemma_lookup_absent(s.drop_first(), k);
    }
}

pub proof fn lemma_lookup_at<V>(s: Seq<(String, V)>, i: int)
    requires
        0 <= i < s.len(),
        forall|j: int| 0 <= j < i ==> (#[trigger] s[j]).0@ != s[i].0@,
    ensures
        lookup(s, s[i].0@) == Some(s[i].1),
    decreases s.len(),
{
    if i > 0 {
        assert(s[0].0@ != s[i].0@);
        assert forall|j: int| 0 <= j < i - 1 implies (#[trigger] s.drop_first()[j]).0@
            != s.drop_first()[i - 1].0@ by {
            assert(s.drop_first()[j] == s[j + 1]);
        }
        lemma_lookup_at(s.drop_first(), i - 1);
    }
}

/// In a sorted sequence, every key maps to its own entry.
pub proof fn lemma_sorted_lookup<V>(s: Seq<(String, V)>)
    requires
        keys_sorted(s),
    ensures
        forall|i: int| 0 <= i < s.len() ==> lookup(s, (#[trigger] s[i]).0@) == Some(s[i].1),
        forall|k: Seq<char>|
            (forall|i: int| 0 <= i < s.len() ==> (#[trigger] s[i]).0@ != k) ==> lookup(s, k) is None,
{
    assert forall|i: int| 0 <= i < s.len() implies lookup(s, (#[trigger] s[i]).0@) == Some(
        s[i].1,
    ) by {
        assert forall|j: int| 0 <= j < i implies (#[trigger] s[j]).0@ != s[i].0@ by {
            lemma_key_lt_asymmetric(s[j].0@, s[i].0@);
        }
        lemma_lookup_at(s, i);
    }
    assert forall|k: Seq<char>|
        (forall|i: int| 0 <= i < s.len() ==> (#[trigger] s[i]).0@ != k) implies lookup(
        s,
        k,
    ) is None by {
        lemma_lookup_absent(s, k);
    }
}

/// The map of a sorted sequence, entry by entry.
pub proof fn lemma_map_of_sorted<V>(s: Seq<(String, V)>)
    requires
        keys_sorted(s),
    ensures
        forall|i: int|
            0 <= i < s.len() ==> #[trigger] map_of(s).contains_key(s[i].0@) && map_of(s)[s[i].0@]
                == s[i].1,
        forall|k: Seq<char>|
            #[trigger] map_of(s).contains_key(k) ==> exists|i: int|
                0 <= i < s.len() && (#[trigger] s[i]).0@ == k,
{
    lemma_sorted_lookup(s);
    assert forall|k: Seq<char>| #[trigger] map_of(s).contains_key(k) implies exists|i: int|
        0 <= i < s.len() && (#[trigger] s[i]).0@ == k by {
        if !(exists|i: int| 0 <= i < s.len() && (#[trigger] s[i]).0@ == k) {
            lemma_lookup_absent(s, k);
        }
    }
}

/// An ordered string-keyed map.
#[derive(Debug)]
pub struct StrMap<V> {
    entries: Vec<(String, V)>,
}

impl<V> View for StrMap<V> {
    type V = Map<Seq<char>, V>;

    closed spec fn view(&self) -> Map<Seq<char>, V> {
        map_of(self.entries@)
    }
}

impl<V> StrMap<V> {
    /// The entries in ascending key order.
    pub closed spec fn pairs(&self) -> Seq<(String, V)> {
        self.entries@
    }

    #[verifier::type_invariant]
    closed spec fn inv(&self) -> bool {
        keys_sorted(self.entries@)
    }

    /// The keys in ascending order, as character sequences.
    pub open spec fn key_seq(&self) -> Seq<Seq<char>> {
        self.pairs().map_values(|p: (String, V)| p.0@)
    }

    pub proof fn lemma_view(&self)
        requires
            keys_sorted(self.pairs()),
        ensures
            self@ == map_of(self.pairs()),
            forall|i: int|
                0 <= i < self.pairs().len() ==> #[trigger] self@.contains_key(self.pairs()[i].0@)
                    && self@[self.pairs()[i].0@] == self.pairs()[i].1,
            forall|k: Seq<char>|
                #[trigger] self@.contains_key(k) ==> exists|i: int|
                    0 <= i < self.pairs().len() && (#[trigger] self.pairs()[i]).0@ == k,
    {
        lemma_map_of_sorted(self.pairs());
        assert forall|i: int| 0 <= i < self.pairs().len() implies #[trigger] self@.contains_key(
            self.pairs()[i].0@,
        ) && self@[self.pairs()[i].0@] == self.pairs()[i].1 by {
            assert(map_of(self.pairs()).contains_key(self.pairs()[i].0@));
        }
    }

    pub fn new() -> (m: Self)
        ensures
            m@ == Map::<Seq<char>, V>::empty(),
            m.pairs().len() == 0,
    {
        let m = StrMap { entries: Vec::new() };
        assert(m@ =~= Map::<Seq<char>, V>::empty());
        m
    }

    pub fn len(&self) -> (n: usize)
        ensures
            n == self.pairs().len(),
            keys_sorted(self.pairs()),
    {
        proof {
            use_type_invariant(self);
        }
        self.entries.len()
    }

    pub fn is_empty(&self) -> (b: bool)
        ensures
            b == (self.pairs().len() == 0),
            b == (self@ == Map::<Seq<char>, V>::empty()),
    {
        proof {
            use_type_invariant(self);
            lemma_map_of_sorted(self.entries@);
            if self.entries@.len() > 0 {
                assert(self@.contains_key(self.entries@[0].0@));
            } else {
                assert(self@ =~= Map::<Seq<char>, V>::empty());
            }
        }
        self.entries.len() == 0
    }

    /// The key at position `i` in ascending order.
    pub fn key_at(&self, i: usize) -> (k: &String)
        requires
            i < self.pairs().len(),
        ensures
            *k == self.pairs()[i as int].0,
            keys_sorted(self.pairs()),
    {
        proof {
            use_type_invariant(self);
        }
        &self.entries[i].0
    }

    /// The value at position `i` in ascending key order.
    pub fn value_at(&self, i: usize) -> (v: &V)
        requires
            i < self.pairs().len(),
        ensures
            *v == self.pairs()[i as int].1,
            keys_sorted(self.pairs()),
    {
        proof {
            use_type_invariant(self);
        }
        &self.entries[i].1
    }

    /// The position of `key`, if present.
    pub fn position(&self, key: &str) -> (r: Option<usize>)
        ensures
            keys_sorted(self.pairs()),
            match r {
                Some(i) => i < self.pairs().len() && self.pairs()[i as int].0@ == key@
                    && self@.contains_key(key@) && self@[key@] == self.pairs()[i as int].1,
                None => !self@.contains_key(key@) && forall|i: int|
                    0 <= i < self.pairs().len() ==> (#[trigger] self.pairs()[i]).0@ != key@,
            },
    {
        proof {
            use_type_invariant(self);
            lemma_map_of_sorted(self.entries@);
        }
        let n = self.entries.len();
        let mut i: usize = 0;
        while i < n
            invariant
                n == self.entries@.len(),
                i <= n,
                keys_sorted(self.entries@),
                forall|j: int| 0 <= j < i ==> (#[trigger] self.entries@[j]).0@ != key@,
            decreases n - i,
        {
            if crate::text::str_eq(self.entries[i].0.as_str(), key) {
                proof {
                    lemma_map_of_sorted(self.entries@);
                    assert(map_of(self.entries@).contains_key(self.entries@[i as int].0@));
                }
                return Some(i);
            }
            i = i + 1;
        }
        proof {
            if self@.contains_key(key@) {
                let j = lemma_lookup_index(self.entries@, key@);
            }
        }
        None
    }

    pub fn get(&self, key: &str) -> (r: Option<&V>)
        ensures
            match r {
                Some(v) => self@.contains_key(key@) && *v == self@[key@],
                None => !self@.contains_key(key@),
            },
    {
        match self.position(key) {
            Some(i) => Some(&self.entries[i].1),
            None => None,
        }
    }

    pub fn contains_key(&self, key: &str) -> (b: bool)
        ensures
            b == self@.contains_key(key@),
    {
        self.position(key).is_some()
    }

    /// Inserts or replaces the value under `key`.
    pub fn insert(&mut self, key: String, value: V)
        ensures
            final(self)@ == old(self)@.insert(key@, value),
    {
        proof {
            use_type_invariant(&*self);
        }
        let mut v: Vec<(String, V)> = Vec::new();
        std::mem::swap(&mut v, &mut self.entries);
        let ghost s = v@;
        let n = v.len();
        let mut p: usize = 0;
        while p < n && key_less(v[p].0.as_str(), key.as_str())
            invariant
                v@ == s,
                keys_sorted(s),
                n == s.len(),
                p <= n,
                forall|j: int| 0 <= j < p ==> key_lt((#[trigger] s[j]).0@, key@),
            decreases n - p,
        {
            p = p + 1;
        }
        if p < n && crate::text::str_eq(v[p].0.as_str(), key.as_str()) {
            proof {
                lemma_update_sorted(s, p as int, key, value);
            }
            v.set(p, (key, value));
        } else {
            proof {
                if p < n {
                    lemma_key_lt_total(s[p as int].0@, key@);
                }
                lemma_insert_sorted(s, p as int, key, value);
            }
            v.insert(p, (key, value));
        }
        self.entries = v;
    }

    /// Removes `key`, giving back its value if it was present.
    pub fn remove(&mut self, key: &str) -> (r: Option<V>)
        ensures
            final(self)@ == old(self)@.remove(key@),
            match r {
                Some(v) => old(self)@.contains_key(key@) && v == old(self)@[key@],
                None => !old(self)@.contains_key(key@),
            },
    {
        proof {
            use_type_invariant(&*self);
        }
        match self.position(key) {
            None => {
                proof {
                    assert(old(self)@.remove(key@) =~= old(self)@);
                }
                None
            },
            Some(p) => {
                let mut v: Vec<(String, V)> = Vec::new();
                std::mem::swap(&mut v, &mut self.entries);
                let ghost s = v@;
                proof {
                    lemma_remove_sorted(s, p as int);
                }
                let (_k, val) = v.remove(p);
                self.entries = v;
                Some(val)
            },
        }
    }
}

/// A witness for `lookup` in a sorted sequence.
pub proof fn lemma_lookup_index<V>(s: Seq<(String, V)>, k: Seq<char>) -> (r: Option<int>)
    requires
        keys_sorted(s),
    ensures
        match r {
            Some(i) => 0 <= i < s.len() && s[i].0@ == k && lookup(s, k) == Some(s[i].1),
            None => lookup(s, k) is None && forall|i: int|
                0 <= i < s.len() ==> (#[trigger] s[i]).0@ != k,
        },
{
    lemma_sorted_lookup(s);
    if exists|i: int| 0 <= i < s.len() && (#[trigger] s[i]).0@ == k {
        let i = choose|i: int| 0 <= i < s.len() && (#[trigger] s[i]).0@ == k;
        Some(i)
    } else {
        None
    }
}

pub proof fn lemma_update_sorted<V>(s: Seq<(String, V)>, p: int, key: String, value: V)
    requires
        keys_sorted(s),
        0 <= p < s.len(),
        s[p].0@ == key@,
    ensures
        keys_sorted(s.update(p, (key, value))),
        map_of(s.update(p, (key, value))) == map_of(s).insert(key@, value),
{
    let t = s.update(p, (key, value));
    assert forall|i: int, j: int| 0 <= i < j < t.len() implies key_lt(
        #[trigger] t[i].0@,
        #[trigger] t[j].0@,
    ) by {
        assert(s[i].0@ == t[i].0@);
        assert(s[j].0@ == t[j].0@);
    }
    assert forall|k: Seq<char>| #[trigger] lookup(t, k) == (if k == key@ {
        Some(value)
    } else {
        lookup(s, k)
    }) by {
        let a = lemma_lookup_index(t, k);
        let b = lemma_lookup_index(s, k);
        match a {
            Some(i) => {
                if i != p {
                    assert(t[i] == s[i]);
                    lemma_key_lt_total(s[i].0@, s[p].0@);
                    if i < p {
                        lemma_key_lt_asymmetric(s[i].0@, s[p].0@);
                    } else {
                        lemma_key_lt_asymmetric(s[p].0@, s[i].0@);
                    }
                    match b {
                        Some(j) => {
                            lemma_sorted_lookup(s);
                        },
                        None => {
                            assert(s[i].0@ == k);
                        },
                    }
                }
            },
            None => {
                assert(t[p].0@ == key@);
                match b {
                    Some(j) => {
                        if j != p {
                            assert(t[j] == s[j]);
                        }
                    },
                    None => {},
                }
            },
        }
    }
    assert(map_of(t) =~= map_of(s).insert(key@, value));
}

pub proof fn lemma_insert_sorted<V>(s: Seq<(String, V)>, p: int, key: String, value: V)
    requires
        keys_sorted(s),
        0 <= p <= s.len(),
        forall|j: int| 0 <= j < p ==> key_lt((#[trigger] s[j]).0@, key@),
        p < s.len() ==> key_lt(key@, s[p].0@),
    ensures
        keys_sorted(s.insert(p, (key, value))),
        map_of(s.insert(p, (key, value))) == map_of(s).insert(key@, value),
{
    let t = s.insert(p, (key, value));
    assert forall|i: int, j: int| 0 <= i < j < t.len() implies key_lt(
        #[trigger] t[i].0@,
        #[trigger] t[j].0@,
    ) by {
        if j < p {
            assert(t[i] == s[i] && t[j] == s[j]);
        } else if j == p {
            assert(t[i] == s[i]);
        } else if i == p {
            assert(t[j] == s[j - 1]);
            if j - 1 > p {
                lemma_key_lt_transitive(key@, s[p].0@, s[j - 1].0@);
            }
        } else if i < p {
            assert(t[i] == s[i] && t[j] == s[j - 1]);
        } else {
            assert(t[i] == s[i - 1] && t[j] == s[j - 1]);
        }
    }
    assert forall|j: int| 0 <= j < s.len() implies (#[trigger] s[j]).0@ != key@ by {
        if j < p {
            lemma_key_lt_asymmetric(s[j].0@, key@);
        } else {
            if j > p {
                lemma_key_lt_transitive(key@, s[p].0@, s[j].0@);
            }
            lemma_key_lt_asymmetric(key@, s[j].0@);
        }
    }
    assert forall|k: Seq<char>| #[trigger] lookup(t, k) == (if k == key@ {
        Some(value)
    } else {
        lookup(s, k)
    }) by {
        let a = lemma_lookup_index(t, k);
        let b = lemma_lookup_index(s, k);
        match a {
            Some(i) => {
                if i < p {
                    assert(t[i] == s[i]);
                } else if i > p {
                    assert(t[i] == s[i - 1]);
                }
                lemma_sorted_lookup(s);
            },
            None => {
                assert(t[p].0@ == key@);
                match b {
                    Some(j) => {
                        if j < p {
                            assert(t[j] == s[j]);
                        } else {
                            assert(t[j + 1] == s[j]);
                        }
                    },
                    None => {},
                }
            },
        }
    }
    assert(map_of(t) =~= map_of(s).insert(key@, value));
}

pub proof fn lemma_remove_sorted<V>(s: Seq<(String, V)>, p: int)
    requires
        keys_sorted(s),
        0 <= p < s.len(),
    ensures
        keys_sorted(s.remove(p)),
        map_of(s.remove(p)) == map_of(s).remove(s[p].0@),
{
    let t = s.remove(p);
    let key = s[p].0@;
    assert forall|i: int, j: int| 0 <= i < j < t.len() implies key_lt(
        #[trigger] t[i].0@,
        #[trigger] t[j].0@,
    ) by {
        if j < p {
            assert(t[i] == s[i] && t[j] == s[j]);
        } else if i < p {
            assert(t[i] == s[i] && t[j] == s[j + 1]);
        } else {
            assert(t[i] == s[i + 1] && t[j] == s[j + 1]);
        }
    }
    assert forall|j: int| 0 <= j < t.len() implies (#[trigger] t[j]).0@ != key by {
        if j < p {
            assert(t[j] == s[j]);
            lemma_key_lt_asymmetric(s[j].0@, key);
        } else {
            assert(t[j] == s[j + 1]);
            lemma_key_lt_asymmetric(key, s[j + 1].0@);
        }
    }
    assert forall|k: Seq<char>| #[trigger] lookup(t, k) == (if k == key {
        None
    } else {
        lookup(s, k)
    }) by {
        let a = lemma_lookup_index(t, k);
        let b = lemma_lookup_index(s, k);
        match a {
            Some(i) => {
                if i < p {
                    assert(t[i] == s[i]);
                } else {
                    assert(t[i] == s[i + 1]);
                }
                lemma_sorted_lookup(s);
            },
            None => {
                match b {
                    Some(j) => {
                        if j < p {
                            assert(t[j] == s[j]);
                        } else if j > p {
                            assert(t[j - 1] == s[j]);
                        }
                    },
                    None => {},
                }
            },
        }
    }
    assert(map_of(t) =~= map_of(s).remove(key));
}

/// The text of every value of a map of strings.
pub open spec fn text_map(m: Map<Seq<char>, String>) -> Map<Seq<char>, Seq<char>> {
    m.map_values(|v: String| v@)
}

pub proof fn lemma_map_of_take_step<V>(s: Seq<(String, V)>, i: int)
    requires
        keys_sorted(s),
        0 <= i < s.len(),
    ensures
        map_of(s.take(i + 1)) == map_of(s.take(i)).insert(s[i].0@, s[i].1),
{
    let a = s.take(i + 1);
    let b = s.take(i);
    assert forall|x: int, y: int| 0 <= x < y < a.len() implies key_lt(
        #[trigger] a[x].0@,
        #[trigger] a[y].0@,
    ) by {
        assert(a[x] == s[x] && a[y] == s[y]);
    }
    assert forall|x: int, y: int| 0 <= x < y < b.len() implies key_lt(
        #[trigger] b[x].0@,
        #[trigger] b[y].0@,
    ) by {
        assert(b[x] == s[x] && b[y] == s[y]);
    }
    assert forall|x: int| 0 <= x < b.len() implies key_lt((#[trigger] b[x]).0@, s[i].0@) by {
        assert(b[x] == s[x]);
    }
    assert(a =~= b.insert(i, s[i]));
    lemma_insert_sorted(b, i, s[i].0, s[i].1);
}

impl StrMap<String> {
    /// Overlay `other` onto this map: every entry of `other` is inserted,
    /// replacing the value of an existing key.
    pub fn extend_strings(&mut self, other: &StrMap<String>)
        ensures
            text_map(final(self)@) == text_map(old(self)@).union_prefer_right(text_map(other@)),
    {
        let n = other.len();
        let mut i: usize = 0;
        proof {
            assert(map_of(other.pairs().take(0)) =~= Map::<Seq<char>, String>::empty());
            assert(text_map(self@) =~= text_map(old(self)@).union_prefer_right(
                text_map(map_of(other.pairs().take(0))),
            ));
        }
        while i < n
            invariant
                n == other.pairs().len(),
                keys_sorted(other.pairs()),
                i <= n,
                text_map(self@) == text_map(old(self)@).union_prefer_right(
                    text_map(map_of(other.pairs().take(i as int))),
                ),
            decreases n - i,
        {
            let k = other.key_at(i).clone();
            let v = other.value_at(i).clone();
            let ghost prev = self@;
            self.insert(k, v);
            proof {
                let s = other.pairs();
                lemma_map_of_take_step(s, i as int);
                assert(text_map(self@) =~= text_map(prev).insert(k@, v@));
                assert(text_map(map_of(s.take(i + 1))) =~= text_map(map_of(s.take(i as int))).insert(
                    k@,
                    v@,
                ));
                assert(text_map(self@) =~= text_map(old(self)@).union_prefer_right(
                    text_map(map_of(s.take(i + 1))),
                ));
            }
            i = i + 1;
        }
        proof {
            assert(other.pairs().take(n as int) =~= other.pairs());
            other.lemma_view();
            assert(other@ =~= map_of(other.pairs()));
        }
    }

    /// A copy of a map of strings.
    pub fn copy_strings(&self) -> (r: Self)
        ensures
            r@ == self@,
            r.pairs() == self.pairs(),
    {
        proof {
            use_type_invariant(self);
        }
        let n = self.entries.len();
        let mut v: Vec<(String, String)> = Vec::new();
        let mut i: usize = 0;
        while i < n
            invariant
                n == self.entries@.len(),
                i <= n,
                v@ == self.entries@.take(i as int),
            decreases n - i,
        {
            let k = self.entries[i].0.clone();
            let x = self.entries[i].1.clone();
            v.push((k, x));
            assert(v@ =~= self.entries@.take(i + 1));
            i = i + 1;
        }
        assert(self.entries@.take(n as int) =~= self.entries@);
        StrMap { entries: v }
    }
}

} // verus!
