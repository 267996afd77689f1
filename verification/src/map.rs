//! `SortedMap`: a map from strings to values that keeps its entries in
//! ascending key order, as `BTreeMap<String, _>` does. Inserting an existing
//! key replaces its value; iteration visits keys in ascending order.
use vstd::prelude::*;
use crate::text::{chars_of, same_chars};

verus! {

// ── key order ──────────────────────────────────────────────────────────────

/// Lexicographic comparison by code point from index `i` on. Over strings
/// this is the order of `String`'s `Ord`, since UTF-8 preserves code-point
/// order.
pub open spec fn lt_from(a: Seq<char>, b: Seq<char>, i: int) -> bool
    decreases a.len() - i,
{
    if i >= a.len() {
        i < b.len()
    } else if i >= b.len() {
        false
    } else if a[i] != b[i] {
        a[i] < b[i]
    } else {
        lt_from(a, b, i + 1)
    }
}

/// `a` sorts strictly before `b`.
pub open spec fn str_lt(a: Seq<char>, b: Seq<char>) -> bool {
    lt_from(a, b, 0)
}

/// No key sorts before itself.
pub proof fn lemma_lt_irreflexive(a: Seq<char>, i: int)
    requires
        0 <= i,
    ensures
        !lt_from(a, a, i),
    decreases a.len() - i,
{
    if i < a.len() {
        lemma_lt_irreflexive(a, i + 1);
    }
}

/// Keys that agree on their first `i` characters are equal or ordered
/// from index `i` on.
pub proof fn lemma_lt_trichotomy(a: Seq<char>, b: Seq<char>, i: int)
    requires
        0 <= i <= a.len(),
        i <= b.len(),
        a.take(i) == b.take(i),
    ensures
        lt_from(a, b, i) || lt_from(b, a, i) || a == b,
    decreases a.len() - i,
{
    if i < a.len() && i < b.len() && a[i] == b[i] {
        assert(a.take(i + 1) =~= a.take(i).push(a[i]));
        assert(b.take(i + 1) =~= b.take(i).push(b[i]));
        lemma_lt_trichotomy(a, b, i + 1);
    } else if i == a.len() && i == b.len() {
        assert(a =~= a.take(i));
        assert(b =~= b.take(i));
    }
}

/// Any two keys are equal or ordered one way or the other.
pub proof fn lemma_str_trichotomy(a: Seq<char>, b: Seq<char>)
    ensures
        str_lt(a, b) || str_lt(b, a) || a == b,
{
    assert(a.take(0) =~= b.take(0));
    lemma_lt_trichotomy(a, b, 0);
}

/// The key order is transitive.
pub proof fn lemma_lt_transitive(a: Seq<char>, b: Seq<char>, c: Seq<char>, i: int)
    requires
        0 <= i,
        lt_from(a, b, i),
        lt_from(b, c, i),
    ensures
        lt_from(a, c, i),
    decreases a.len() - i,
{
    if i < a.len() && i < b.len() && i < c.len() && a[i] == b[i] && b[i] == c[i] {
        lemma_lt_transitive(a, b, c, i + 1);
    }
}

/// Whether `a` sorts strictly before `b`.
pub fn str_lt_exec(a: &Vec<char>, b: &Vec<char>) -> (r: bool)
    ensures
        r == str_lt(a@, b@),
{
    let mut i: usize = 0;
    while i < a.len() && i < b.len() && a[i] == b[i]
        invariant
            i <= a.len(),
            i <= b.len(),
            str_lt(a@, b@) == lt_from(a@, b@, i as int),
        decreases a.len() - i,
    {
        i += 1;
    }
    if i >= a.len() {
        i < b.len()
    } else if i >= b.len() {
        false
    } else {
        a[i] < b[i]
    }
}

// ── entries and their map ──────────────────────────────────────────────────

/// Keys strictly ascending along the sequence.
pub open spec fn keys_ascending<V>(ps: Seq<(String, V)>) -> bool {
    forall|i: int, j: int|
        0 <= i < j < ps.len() ==> str_lt(#[trigger] ps[i].0@, #[trigger] ps[j].0@)
}

/// The map that a sequence of entries denotes (a later entry wins).
pub open spec fn pairs_map<V: View>(ps: Seq<(String, V)>) -> Map<Seq<char>, V::V>
    decreases ps.len(),
{
    if ps.len() == 0 {
        Map::empty()
    } else {
        pairs_map(ps.drop_last()).insert(ps.last().0@, ps.last().1@)
    }
}

/// With distinct keys, the map holds exactly the entries' keys, each with its
/// entry's value.
pub proof fn lemma_pairs_map<V: View>(ps: Seq<(String, V)>)
    requires
        keys_ascending(ps),
    ensures
        forall|k: Seq<char>|
            #[trigger] pairs_map(ps).contains_key(k) <==> exists|i: int|
                0 <= i < ps.len() && (#[trigger] ps[i]).0@ == k,
        forall|i: int| 0 <= i < ps.len() ==> pairs_map(ps)[(#[trigger] ps[i]).0@] == ps[i].1@,
    decreases ps.len(),
{
    if ps.len() > 0 {
        let q = ps.drop_last();
        assert(keys_ascending(q));
        lemma_pairs_map(q);
        let last = ps.last();
        assert forall|k: Seq<char>|
            #[trigger] pairs_map(ps).contains_key(k) <==> exists|i: int|
                0 <= i < ps.len() && (#[trigger] ps[i]).0@ == k by {
            if pairs_map(ps).contains_key(k) && k != last.0@ {
                assert(pairs_map(q).contains_key(k));
                let i = choose|i: int| 0 <= i < q.len() && (#[trigger] q[i]).0@ == k;
                assert(ps[i] == q[i]);
            }
            if exists|i: int| 0 <= i < ps.len() && (#[trigger] ps[i]).0@ == k {
                let i = choose|i: int| 0 <= i < ps.len() && (#[trigger] ps[i]).0@ == k;
                if i < ps.len() - 1 {
                    assert(q[i] == ps[i]);
                }
            }
        }
        assert forall|i: int| 0 <= i < ps.len() implies pairs_map(ps)[(#[trigger] ps[i]).0@]
            == ps[i].1@ by {
            if i < ps.len() - 1 {
                assert(q[i] == ps[i]);
                assert(str_lt(ps[i].0@, ps[ps.len() - 1].0@));
                if ps[i].0@ == last.0@ {
                    lemma_lt_irreflexive(last.0@, 0);
                }
            }
        }
    }
}

/// A map from strings to values with its entries in ascending key order.
pub struct SortedMap<V: View> {
    entries: Vec<(String, V)>,
}

impl<V: View> View for SortedMap<V> {
    type V = Map<Seq<char>, V::V>;

    open spec fn view(&self) -> Map<Seq<char>, V::V> {
        pairs_map(self.pairs())
    }
}

impl<V: View> SortedMap<V> {
    #[verifier::type_invariant]
    spec fn ascending(self) -> bool {
        keys_ascending(self.entries@)
    }

    /// The entries in ascending key order.
    pub closed spec fn pairs(self) -> Seq<(String, V)> {
        self.entries@
    }

    /// The empty map.
    pub fn new() -> (r: Self)
        ensures
            r.pairs() == Seq::<(String, V)>::empty(),
            r@ == Map::<Seq<char>, V::V>::empty(),
    {
        SortedMap { entries: Vec::new() }
    }

    /// The number of entries.
    pub fn len(&self) -> (r: usize)
        ensures
            r == self.pairs().len(),
    {
        self.entries.len()
    }

    /// Whether the map has no entries.
    pub fn is_empty(&self) -> (r: bool)
        ensures
            r == (self.pairs().len() == 0),
            r == (self@ == Map::<Seq<char>, V::V>::empty()),
    {
        proof {
            use_type_invariant(self);
            lemma_pairs_map(self.pairs());
            if self.pairs().len() > 0 {
                assert(self@.contains_key(self.pairs()[0].0@));
            }
        }
        self.entries.len() == 0
    }

    /// The entries, in ascending key order.
    pub fn entries(&self) -> (r: &Vec<(String, V)>)
        ensures
            r@ == self.pairs(),
            keys_ascending(self.pairs()),
    {
        proof {
            use_type_invariant(self);
        }
        &self.entries
    }

    /// The value stored under `k`, if any.
    pub fn get(&self, k: &str) -> (r: Option<&V>)
        ensures
            match r {
                Some(v) => self@.contains_key(k@) && self@[k@] == v@,
                None => !self@.contains_key(k@),
            },
    {
        proof {
            use_type_invariant(self);
            lemma_pairs_map(self.pairs());
        }
        let kc = chars_of(k);
        let mut i: usize = 0;
        while i < self.entries.len()
            invariant
                i <= self.entries@.len(),
                kc@ == k@,
                forall|j: int| 0 <= j < i ==> (#[trigger] self.entries@[j]).0@ != k@,
            decreases self.entries.len() - i,
        {
            let ec = chars_of(self.entries[i].0.as_str());
            if same_chars(&ec, &kc) {
                proof {
                    use_type_invariant(self);
                    lemma_pairs_map(self.pairs());
                    assert(self.pairs()[i as int].0@ == k@);
                    assert(self@[self.pairs()[i as int].0@] == self.pairs()[i as int].1@);
                }
                return Some(&self.entries[i].1);
            }
            i += 1;
        }
        None
    }

    /// Stores `v` under `k`, replacing any value already stored there.
    pub fn insert(&mut self, k: String, v: V)
        ensures
            final(self)@ == old(self)@.insert(k@, v@),
            keys_ascending(final(self).pairs()),
    {
        proof {
            use_type_invariant(&*self);
        }
        let ghost m0 = self@;
        let mut es: Vec<(String, V)> = Vec::new();
        std::mem::swap(&mut es, &mut self.entries);
        let ghost e0 = es@;
        proof {
            lemma_pairs_map(e0);
        }
        let kc = chars_of(k.as_str());
        let mut i: usize = 0;
        loop
            invariant
                es@ == e0,
                keys_ascending(e0),
                kc@ == k@,
                i <= e0.len(),
                forall|j: int| 0 <= j < i ==> str_lt((#[trigger] e0[j]).0@, k@),
            ensures
                i <= e0.len(),
                forall|j: int| 0 <= j < i ==> str_lt((#[trigger] e0[j]).0@, k@),
                i < e0.len() ==> !str_lt(e0[i as int].0@, k@),
            decreases e0.len() - i,
        {
            if i >= es.len() {
                break;
            }
            let ec = chars_of(es[i].0.as_str());
            if !str_lt_exec(&ec, &kc) {
                break;
            }
            i += 1;
        }
        let found = if i < es.len() {
            let ec = chars_of(es[i].0.as_str());
            same_chars(&ec, &kc)
        } else {
            false
        };
        proof {
            if i < e0.len() {
                lemma_str_trichotomy(e0[i as int].0@, k@);
            }
        }
        if found {
            es.set(i, (k, v));
            proof {
                let e1 = es@;
                assert forall|a: int, b: int| 0 <= a < b < e1.len() implies str_lt(
                    (#[trigger] e1[a]).0@,
                    (#[trigger] e1[b]).0@,
                ) by {
                    assert(e1[a].0@ == e0[a].0@);
                    assert(e1[b].0@ == e0[b].0@);
                }
                lemma_pairs_map(e1);
                assert(pairs_map(e1) =~= m0.insert(k@, v@)) by {
                    assert forall|key: Seq<char>| #[trigger]
                        pairs_map(e1).contains_key(key) == m0.insert(k@, v@).contains_key(key) by {
                        if pairs_map(e1).contains_key(key) {
                            let j = choose|j: int| 0 <= j < e1.len() && (#[trigger] e1[j]).0@ == key;
                            assert(e0[j].0@ == key);
                        }
                        if m0.contains_key(key) {
                            let j = choose|j: int| 0 <= j < e0.len() && (#[trigger] e0[j]).0@ == key;
                            assert(e1[j].0@ == key);
                        }
                        if key == k@ {
                            assert(e1[i as int].0@ == key);
                        }
                    }
                    assert forall|key: Seq<char>| #[trigger]
                        pairs_map(e1).contains_key(key) implies pairs_map(e1)[key] == m0.insert(k@, v@)[key] by {
                        let j = choose|j: int| 0 <= j < e1.len() && (#[trigger] e1[j]).0@ == key;
                        if j != i {
                            assert(e0[j] == e1[j]);
                            assert(e0[j].0@ != k@) by {
                                if j < i {
                                    lemma_lt_irreflexive(k@, 0);
                                } else {
                                    lemma_lt_irreflexive(k@, 0);
                                    assert(str_lt(e0[i as int].0@, e0[j].0@));
                                }
                            }
                        }
                    }
                }
            }
        } else {
            es.insert(i, (k, v));
            proof {
                let e1 = es@;
                assert(e1 == e0.insert(i as int, (k, v)));
                assert forall|a: int, b: int| 0 <= a < b < e1.len() implies str_lt(
                    (#[trigger] e1[a]).0@,
                    (#[trigger] e1[b]).0@,
                ) by {
                    if b < i {
                        assert(e1[a] == e0[a] && e1[b] == e0[b]);
                    } else if b == i {
                        assert(e1[a] == e0[a]);
                    } else if a == i {
                        assert(e1[b] == e0[b - 1]);
                        if b - 1 > i {
                            lemma_lt_transitive(k@, e0[i as int].0@, e0[b - 1].0@, 0);
                        }
                    } else if a < i {
                        assert(e1[a] == e0[a] && e1[b] == e0[b - 1]);
                    } else {
                        assert(e1[a] == e0[a - 1] && e1[b] == e0[b - 1]);
                    }
                }
                lemma_pairs_map(e1);
                assert(pairs_map(e1) =~= m0.insert(k@, v@)) by {
                    assert forall|key: Seq<char>| #[trigger]
                        pairs_map(e1).contains_key(key) == m0.insert(k@, v@).contains_key(key) by {
                        if pairs_map(e1).contains_key(key) {
                            let j = choose|j: int| 0 <= j < e1.len() && (#[trigger] e1[j]).0@ == key;
                            if j < i {
                                assert(e0[j] == e1[j]);
                            } else if j > i {
                                assert(e0[j - 1] == e1[j]);
                            }
                        }
                        if m0.contains_key(key) {
                            let j = choose|j: int| 0 <= j < e0.len() && (#[trigger] e0[j]).0@ == key;
                            if j < i {
                                assert(e1[j] == e0[j]);
                            } else {
                                assert(e1[j + 1] == e0[j]);
                            }
                        }
                        if key == k@ {
                            assert(e1[i as int].0@ == key);
                        }
                    }
                    assert forall|key: Seq<char>| #[trigger]
                        pairs_map(e1).contains_key(key) implies pairs_map(e1)[key] == m0.insert(k@, v@)[key] by {
                        let j = choose|j: int| 0 <= j < e1.len() && (#[trigger] e1[j]).0@ == key;
                        if j < i {
                            assert(e0[j] == e1[j]);
                            lemma_lt_irreflexive(k@, 0);
                        } else if j > i {
                            assert(e0[j - 1] == e1[j]);
                            lemma_lt_irreflexive(k@, 0);
                            if j - 1 > i {
                                lemma_lt_transitive(k@, e0[i as int].0@, e0[j - 1].0@, 0);
                            }
                        }
                    }
                }
            }
        }
        self.entries = es;
    }

    /// Inserts every entry of `other`, in its order; entries of `other` win
    /// over entries already here (`Extend` on a `BTreeMap`).
    pub fn extend(&mut self, other: SortedMap<V>)
        ensures
            final(self)@ == old(self)@.union_prefer_right(other@),
            keys_ascending(final(self).pairs()),
    {
        proof {
            use_type_invariant(&*self);
        }
        let ghost m0 = self@;
        let ghost po = other.pairs();
        let mut es = other.entries;
        let mut c: usize = 0;
        assert(po.take(0) =~= Seq::<(String, V)>::empty());
        assert(m0.union_prefer_right(Map::<Seq<char>, V::V>::empty()) =~= m0);
        assert(es@ =~= po.skip(0));
        let total = es.len();
        while es.len() > 0
            invariant
                total == po.len(),
                c <= po.len(),
                es@ == po.skip(c as int),
                self@ == m0.union_prefer_right(pairs_map(po.take(c as int))),
                keys_ascending(self.pairs()),
            decreases es.len(),
        {
            let (k, v) = es.remove(0);
            proof {
                assert(po[c as int] == (k, v));
            }
            self.insert(k, v);
            proof {
                assert(po.take(c + 1).drop_last() =~= po.take(c as int));
                assert(po.take(c + 1).last() == po[c as int]);
                assert(pairs_map(po.take(c + 1)) == pairs_map(po.take(c as int)).insert(k@, v@));
                assert(self@ =~= m0.union_prefer_right(pairs_map(po.take(c + 1))));
                assert(es@ =~= po.skip(c + 1));
            }
            c += 1;
        }
        assert(po.take(c as int) =~= po);
    }
}

} // verus!
