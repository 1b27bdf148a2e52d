//! An ordered mapping from headword to rendered content, with exact-prefix
//! retrieval. Entries are kept as a vector sorted strictly ascending by key
//! in code-point order, so iteration and prefix queries come out sorted. The
//! same structure serves as the abbreviation table, whose keys are unique
//! and where a later insertion for a duplicate key overwrites.
use vstd::prelude::*;

use crate::chars::chars_to_string;

verus! {

/// Lexicographic code-point order on character sequences, compared from
/// position `i` on.
pub open spec fn seq_lt_from(a: Seq<char>, b: Seq<char>, i: int) -> bool
    decreases b.len() - i,
{
    if !(0 <= i && i < b.len()) {
        false
    } else if i >= a.len() {
        true
    } else if a[i] < b[i] {
        true
    } else if a[i] == b[i] {
        seq_lt_from(a, b, i + 1)
    } else {
        false
    }
}

/// `a` comes strictly before `b` in code-point order.
pub open spec fn seq_lt(a: Seq<char>, b: Seq<char>) -> bool {
    seq_lt_from(a, b, 0)
}

proof fn lemma_seq_lt_from_trichotomy(a: Seq<char>, b: Seq<char>, i: int)
    requires
        0 <= i <= a.len(),
        0 <= i <= b.len(),
        forall|j: int| 0 <= j < i ==> a[j] == b[j],
    ensures
        seq_lt_from(a, b, i) || seq_lt_from(b, a, i) || a == b,
        seq_lt_from(a, b, i) ==> !seq_lt_from(b, a, i) && a != b,
    decreases b.len() - i,
{
    if i < a.len() && i < b.len() && a[i] == b[i] {
        lemma_seq_lt_from_trichotomy(a, b, i + 1);
    } else if i >= a.len() && i >= b.len() {
        assert(a =~= b);
    }
}

/// Exactly one of `seq_lt(a, b)`, `a == b`, `seq_lt(b, a)` holds.
pub proof fn lemma_seq_lt_trichotomy(a: Seq<char>, b: Seq<char>)
    ensures
        seq_lt(a, b) || seq_lt(b, a) || a == b,
        seq_lt(a, b) ==> !seq_lt(b, a) && a != b,
        a == b ==> !seq_lt(a, b),
{
    lemma_seq_lt_from_trichotomy(a, b, 0);
    if a == b {
        lemma_seq_lt_from_trichotomy(a, a, 0);
    }
}

proof fn lemma_seq_lt_from_trans(a: Seq<char>, b: Seq<char>, c: Seq<char>, i: int)
    requires
        0 <= i,
        seq_lt_from(a, b, i),
        seq_lt_from(b, c, i),
    ensures
        seq_lt_from(a, c, i),
    decreases c.len() - i,
{
    if i < a.len() && i < b.len() && i < c.len() && a[i] == b[i] && b[i] == c[i] {
        lemma_seq_lt_from_trans(a, b, c, i + 1);
    }
}

/// Code-point order is transitive.
pub proof fn lemma_seq_lt_trans(a: Seq<char>, b: Seq<char>, c: Seq<char>)
    requires
        seq_lt(a, b),
        seq_lt(b, c),
    ensures
        seq_lt(a, c),
{
    lemma_seq_lt_from_trans(a, b, c, 0);
}

/// The entries' keys are strictly ascending in code-point order.
pub open spec fn sorted_entries(s: Seq<(Seq<char>, Seq<char>)>) -> bool {
    forall|i: int, j: int| 0 <= i < j < s.len() ==> seq_lt(s[i].0, s[j].0)
}

/// `a` literally starts with `p`.
pub open spec fn starts_with(a: Seq<char>, p: Seq<char>) -> bool {
    p.len() <= a.len() && forall|k: int| 0 <= k < p.len() ==> a[k] == p[k]
}

/// The entries with the given key inserted in order; an entry already under
/// that key is overwritten.
pub open spec fn idx_insert(
    s: Seq<(Seq<char>, Seq<char>)>,
    k: Seq<char>,
    v: Seq<char>,
) -> Seq<(Seq<char>, Seq<char>)>
    decreases s.len(),
{
    if s.len() == 0 {
        seq![(k, v)]
    } else if seq_lt(k, s[0].0) {
        seq![(k, v)] + s
    } else if k == s[0].0 {
        seq![(k, v)] + s.skip(1)
    } else {
        seq![s[0]] + idx_insert(s.skip(1), k, v)
    }
}

/// The value stored under `k` from position `i` on, if any.
pub open spec fn idx_get_from(s: Seq<(Seq<char>, Seq<char>)>, k: Seq<char>, i: int) -> Option<
    Seq<char>,
>
    decreases s.len() - i,
{
    if !(0 <= i && i < s.len()) {
        None
    } else if s[i].0 == k {
        Some(s[i].1)
    } else {
        idx_get_from(s, k, i + 1)
    }
}

/// The value stored under `k`, if any.
pub open spec fn idx_get(s: Seq<(Seq<char>, Seq<char>)>, k: Seq<char>) -> Option<Seq<char>> {
    idx_get_from(s, k, 0)
}

/// The entries from position `i` on whose key starts with `p`, in order.
pub open spec fn matches_from(s: Seq<(Seq<char>, Seq<char>)>, p: Seq<char>, i: int) -> Seq<
    (Seq<char>, Seq<char>),
>
    decreases s.len() - i,
{
    if !(0 <= i && i < s.len()) {
        Seq::empty()
    } else if starts_with(s[i].0, p) {
        seq![s[i]] + matches_from(s, p, i + 1)
    } else {
        matches_from(s, p, i + 1)
    }
}

/// How `idx_insert` splits around the insertion position: `p` is the first
/// position whose key is not below `k`.
proof fn lemma_idx_insert_at(s: Seq<(Seq<char>, Seq<char>)>, k: Seq<char>, v: Seq<char>, p: int)
    requires
        0 <= p <= s.len(),
        forall|i: int| 0 <= i < p ==> seq_lt(s[i].0, k),
        p < s.len() ==> !seq_lt(s[p].0, k),
    ensures
        idx_insert(s, k, v) == if p < s.len() && s[p].0 == k {
            s.take(p) + seq![(k, v)] + s.skip(p + 1)
        } else {
            s.take(p) + seq![(k, v)] + s.skip(p)
        },
    decreases p,
{
    if s.len() == 0 {
        assert(idx_insert(s, k, v) =~= s.take(p) + seq![(k, v)] + s.skip(p));
    } else if p == 0 {
        lemma_seq_lt_trichotomy(k, s[0].0);
        if s[0].0 == k {
            assert(idx_insert(s, k, v) =~= s.take(0) + seq![(k, v)] + s.skip(1));
        } else {
            assert(seq_lt(k, s[0].0));
            assert(idx_insert(s, k, v) =~= s.take(0) + seq![(k, v)] + s.skip(0));
        }
    } else {
        assert(seq_lt(s[0].0, k));
        lemma_seq_lt_trichotomy(k, s[0].0);
        let t = s.skip(1);
        assert(forall|i: int| 0 <= i < p - 1 ==> t[i].0 == s[i + 1].0 && seq_lt(t[i].0, k));
        lemma_idx_insert_at(t, k, v, p - 1);
        if p < s.len() && s[p].0 == k {
            assert(seq![s[0]] + (t.take(p - 1) + seq![(k, v)] + t.skip(p)) =~= s.take(p) + seq![
                (k, v),
            ] + s.skip(p + 1));
        } else {
            assert(seq![s[0]] + (t.take(p - 1) + seq![(k, v)] + t.skip(p - 1)) =~= s.take(p)
                + seq![(k, v)] + s.skip(p));
        }
    }
}

/// Inserting keeps the entries sorted.
proof fn lemma_idx_insert_sorted(s: Seq<(Seq<char>, Seq<char>)>, k: Seq<char>, v: Seq<char>, p: int)
    requires
        sorted_entries(s),
        0 <= p <= s.len(),
        forall|i: int| 0 <= i < p ==> seq_lt(s[i].0, k),
        p < s.len() ==> !seq_lt(s[p].0, k),
    ensures
        sorted_entries(idx_insert(s, k, v)),
{
    lemma_idx_insert_at(s, k, v, p);
    let r = idx_insert(s, k, v);
    assert forall|i: int, j: int| 0 <= i < j < r.len() implies seq_lt(r[i].0, r[j].0) by {
        if p < s.len() && s[p].0 == k {
            assert(forall|x: int| p < x < s.len() ==> seq_lt(k, s[x].0));
        } else if p < s.len() {
            lemma_seq_lt_trichotomy(k, s[p].0);
            assert(seq_lt(k, s[p].0));
            assert forall|x: int| p <= x < s.len() implies seq_lt(k, s[x].0) by {
                if x > p {
                    lemma_seq_lt_trans(k, s[p].0, s[x].0);
                }
            }
        }
    }
}

/// The ordered map from character-sequence keys to character-sequence
/// values: the prefix index, and equally the abbreviation table.
pub struct StrIndex {
    entries: Vec<(Vec<char>, Vec<char>)>,
}

impl View for StrIndex {
    type V = Seq<(Seq<char>, Seq<char>)>;

    closed spec fn view(&self) -> Seq<(Seq<char>, Seq<char>)> {
        Seq::new(self.entries@.len(), |i: int| (self.entries@[i].0@, self.entries@[i].1@))
    }
}

impl StrIndex {
    /// The structural invariant: keys strictly ascending, hence unique.
    pub open spec fn wf(&self) -> bool {
        sorted_entries(self@)
    }

    /// An empty index.
    pub fn new() -> (r: StrIndex)
        ensures
            r@ == Seq::<(Seq<char>, Seq<char>)>::empty(),
            r.wf(),
    {
        let r = StrIndex { entries: Vec::new() };
        proof {
            assert(r@ =~= Seq::<(Seq<char>, Seq<char>)>::empty());
        }
        r
    }

    /// The number of entries.
    pub fn len(&self) -> (n: usize)
        ensures
            n == self@.len(),
    {
        self.entries.len()
    }

    /// Adds or overwrites the entry under `key`.
    pub fn insert(&mut self, key: Vec<char>, val: Vec<char>)
        requires
            old(self).wf(),
        ensures
            final(self)@ == idx_insert(old(self)@, key@, val@),
            final(self).wf(),
    {
        let ghost s = self@;
        let p = find_pos(&self.entries, &key);
        proof {
            assert(forall|i: int| 0 <= i < s.len() ==> s[i].0 == self.entries@[i].0@);
            lemma_idx_insert_at(s, key@, val@, p as int);
            lemma_idx_insert_sorted(s, key@, val@, p as int);
        }
        let replace = if p < self.entries.len() {
            chars_eq(&self.entries[p].0, &key)
        } else {
            false
        };
        if replace {
            self.entries.remove(p);
            self.entries.insert(p, (key, val));
            proof {
                assert(self@ =~= s.take(p as int) + seq![(key@, val@)] + s.skip(p + 1));
            }
        } else {
            self.entries.insert(p, (key, val));
            proof {
                assert(self@ =~= s.take(p as int) + seq![(key@, val@)] + s.skip(p as int));
            }
        }
    }

    /// An independent copy with the same entries.
    pub fn duplicate(&self) -> (r: StrIndex)
        ensures
            r@ == self@,
    {
        let mut es: Vec<(Vec<char>, Vec<char>)> = Vec::new();
        let mut i: usize = 0;
        while i < self.entries.len()
            invariant
                i <= self.entries@.len(),
                es@.len() == i,
                forall|x: int|
                    0 <= x < i ==> es@[x].0@ == self.entries@[x].0@ && es@[x].1@
                        == self.entries@[x].1@,
            decreases self.entries@.len() - i,
        {
            let mut k: Vec<char> = Vec::new();
            crate::chars::append_chars(&mut k, &self.entries[i].0);
            let mut v: Vec<char> = Vec::new();
            crate::chars::append_chars(&mut v, &self.entries[i].1);
            es.push((k, v));
            i += 1;
        }
        let r = StrIndex { entries: es };
        proof {
            assert(r@ =~= self@);
        }
        r
    }

    /// The value stored under `key`, if any.
    pub fn get(&self, key: &Vec<char>) -> (r: Option<&Vec<char>>)
        ensures
            match r {
                Some(v) => idx_get(self@, key@) == Some(v@),
                None => idx_get(self@, key@) is None,
            },
    {
        let mut i: usize = 0;
        while i < self.entries.len()
            invariant
                i <= self@.len(),
                self.entries@.len() == self@.len(),
                idx_get(self@, key@) == idx_get_from(self@, key@, i as int),
            decreases self@.len() - i,
        {
            if chars_eq(&self.entries[i].0, key) {
                return Some(&self.entries[i].1);
            }
            i += 1;
        }
        None
    }

    /// Every entry whose key starts with `prefix`, in ascending key order,
    /// as strings.
    pub fn matches(&self, prefix: &Vec<char>) -> (r: Vec<(String, String)>)
        ensures
            r@.map_values(|t: (String, String)| (t.0@, t.1@)) == matches_from(self@, prefix@, 0),
    {
        let mut out: Vec<(String, String)> = Vec::new();
        let mut i: usize = 0;
        while i < self.entries.len()
            invariant
                i <= self@.len(),
                self.entries@.len() == self@.len(),
                matches_from(self@, prefix@, 0) == out@.map_values(
                    |t: (String, String)| (t.0@, t.1@),
                ) + matches_from(self@, prefix@, i as int),
            decreases self@.len() - i,
        {
            let ghost prev = out@.map_values(|t: (String, String)| (t.0@, t.1@));
            if starts_with_exec(&self.entries[i].0, prefix) {
                let ks = chars_to_string(&self.entries[i].0);
                let vs = chars_to_string(&self.entries[i].1);
                out.push((ks, vs));
                proof {
                    assert(out@.map_values(|t: (String, String)| (t.0@, t.1@)) =~= prev.push(
                        (self@[i as int].0, self@[i as int].1),
                    ));
                    assert(prev + (seq![self@[i as int]] + matches_from(
                        self@,
                        prefix@,
                        i + 1 as int,
                    )) =~= prev.push((self@[i as int].0, self@[i as int].1)) + matches_from(
                        self@,
                        prefix@,
                        i + 1 as int,
                    ));
                }
            }
            i += 1;
        }
        proof {
            assert(out@.map_values(|t: (String, String)| (t.0@, t.1@)) + matches_from(
                self@,
                prefix@,
                self@.len() as int,
            ) =~= out@.map_values(|t: (String, String)| (t.0@, t.1@)));
        }
        out
    }
}

/// The first position whose key is not below `key` in code-point order.
fn find_pos(entries: &Vec<(Vec<char>, Vec<char>)>, key: &Vec<char>) -> (p: usize)
    ensures
        p <= entries@.len(),
        forall|i: int| 0 <= i < p ==> seq_lt(entries@[i].0@, key@),
        p < entries@.len() ==> !seq_lt(entries@[p as int].0@, key@),
{
    let mut p: usize = 0;
    while p < entries.len()
        invariant
            p <= entries@.len(),
            forall|i: int| 0 <= i < p ==> seq_lt(entries@[i].0@, key@),
        decreases entries@.len() - p,
    {
        if !seq_lt_exec(&entries[p].0, key) {
            return p;
        }
        p += 1;
    }
    p
}

/// Runtime mirror of `seq_lt_from` starting at a position.
fn seq_lt_from_exec(a: &Vec<char>, b: &Vec<char>, i: usize) -> (r: bool)
    requires
        i <= a@.len(),
        i <= b@.len(),
    ensures
        r == seq_lt_from(a@, b@, i as int),
    decreases b@.len() - i,
{
    if i >= b.len() {
        false
    } else if i >= a.len() {
        true
    } else if a[i] < b[i] {
        true
    } else if a[i] == b[i] {
        seq_lt_from_exec(a, b, i + 1)
    } else {
        false
    }
}

/// Runtime test for `seq_lt`.
pub fn seq_lt_exec(a: &Vec<char>, b: &Vec<char>) -> (r: bool)
    ensures
        r == seq_lt(a@, b@),
{
    seq_lt_from_exec(a, b, 0)
}

/// Runtime equality of character vectors, decided over the views.
pub fn chars_eq(a: &Vec<char>, b: &Vec<char>) -> (r: bool)
    ensures
        r == (a@ == b@),
{
    if a.len() != b.len() {
        return false;
    }
    let mut i: usize = 0;
    while i < a.len()
        invariant
            i <= a@.len(),
            a@.len() == b@.len(),
            forall|x: int| 0 <= x < i ==> a@[x] == b@[x],
        decreases a@.len() - i,
    {
        if a[i] != b[i] {
            return false;
        }
        i += 1;
    }
    proof {
        assert(a@ =~= b@);
    }
    true
}

/// Runtime test for `starts_with`.
pub fn starts_with_exec(a: &Vec<char>, p: &Vec<char>) -> (r: bool)
    ensures
        r == starts_with(a@, p@),
{
    if p.len() > a.len() {
        return false;
    }
    let mut i: usize = 0;
    while i < p.len()
        invariant
            i <= p@.len(),
            p@.len() <= a@.len(),
            forall|x: int| 0 <= x < i ==> a@[x] == p@[x],
        decreases p@.len() - i,
    {
        if a[i] != p[i] {
            return false;
        }
        i += 1;
    }
    true
}

} // verus!
