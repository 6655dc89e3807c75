use vstd::prelude::*;

use crate::text::{
    chars_of, compare_chars, lemma_str_lt_asymmetric, lemma_str_lt_irreflexive,
    lemma_str_lt_total, lemma_str_lt_transitive, str_lt, Comparison,
};

verus! {

/// The keys of `s` are strictly increasing in string order (so no key occurs twice).
pub open spec fn keys_sorted<V>(s: Seq<(Seq<char>, V)>) -> bool {
    forall|i: int, j: int| 0 <= i < j < s.len() ==> str_lt(#[trigger] s[i].0, #[trigger] s[j].0)
}

/// The value stored under `k` in the association list `s` (its first occurrence).
pub open spec fn lookup<V>(s: Seq<(Seq<char>, V)>, k: Seq<char>) -> Option<V>
    decreases s.len(),
{
    if s.len() == 0 {
        None
    } else if s[0].0 == k {
        Some(s[0].1)
    } else {
        lookup(s.drop_first(), k)
    }
}

/// Inserting `(k, v)` into a sorted association list: an entry with key `k` is
/// replaced in place, otherwise the pair goes where its key sorts.
pub open spec fn insert_sorted<V>(s: Seq<(Seq<char>, V)>, k: Seq<char>, v: V) -> Seq<(Seq<char>, V)>
    decreases s.len(),
{
    if s.len() == 0 {
        seq![(k, v)]
    } else if s[0].0 == k {
        seq![(k, v)] + s.drop_first()
    } else if str_lt(k, s[0].0) {
        seq![(k, v)] + s
    } else {
        seq![s[0]] + insert_sorted(s.drop_first(), k, v)
    }
}

/// The keys of an association list, in order.
pub open spec fn keys_of<V>(s: Seq<(Seq<char>, V)>) -> Seq<Seq<char>> {
    Seq::new(s.len(), |i: int| s[i].0)
}

/// After an insertion, `k` maps to `v` and every other key keeps its value.
pub proof fn lemma_lookup_insert_sorted<V>(s: Seq<(Seq<char>, V)>, k: Seq<char>, v: V, q: Seq<char>)
    ensures
        q == k ==> lookup(insert_sorted(s, k, v), q) == Some(v),
        q != k ==> lookup(insert_sorted(s, k, v), q) == lookup(s, q),
    decreases s.len(),
{
    let t = insert_sorted(s, k, v);
    if s.len() == 0 {
        assert(t =~= seq![(k, v)]);
        assert(t.drop_first() =~= Seq::<(Seq<char>, V)>::empty());
        assert(lookup(t.drop_first(), q) is None);
        assert(lookup(s, q) is None);
    } else if s[0].0 == k {
        assert(t[0] == (k, v));
        assert(t.drop_first() =~= s.drop_first());
        if q != k {
            assert(lookup(s, q) == lookup(s.drop_first(), q));
            assert(lookup(t, q) == lookup(t.drop_first(), q));
        }
    } else if str_lt(k, s[0].0) {
        assert(t[0] == (k, v));
        assert(t.drop_first() =~= s);
        if q != k {
            assert(lookup(t, q) == lookup(t.drop_first(), q));
        }
    } else {
        assert(t[0] == s[0]);
        assert(t.drop_first() =~= insert_sorted(s.drop_first(), k, v));
        lemma_lookup_insert_sorted(s.drop_first(), k, v, q);
    }
}

/// A key that sorts before every key of a sorted list is not found in it.
pub proof fn lemma_lookup_absent<V>(s: Seq<(Seq<char>, V)>, q: Seq<char>)
    requires
        forall|i: int| 0 <= i < s.len() ==> s[i].0 != q,
    ensures
        lookup(s, q) is None,
    decreases s.len(),
{
    if s.len() > 0 {
        assert forall|i: int| 0 <= i < s.drop_first().len() implies s.drop_first()[i].0 != q by {
            assert(s.drop_first()[i] == s[i + 1]);
        }
        lemma_lookup_absent(s.drop_first(), q);
    }
}

/// In a list without repeated keys, the lookup finds the entry at its index.
pub proof fn lemma_lookup_at<V>(s: Seq<(Seq<char>, V)>, i: int)
    requires
        keys_sorted(s),
        0 <= i < s.len(),
    ensures
        lookup(s, s[i].0) == Some(s[i].1),
    decreases s.len(),
{
    if i > 0 {
        lemma_str_lt_irreflexive(s[i].0);
        assert(str_lt(s[0].0, s[i].0));
        assert(s[0].0 != s[i].0);
        assert(s.drop_first()[i - 1] == s[i]);
        assert(keys_sorted(s.drop_first())) by {
            assert forall|a: int, b: int| 0 <= a < b < s.drop_first().len() implies
                str_lt(#[trigger] s.drop_first()[a].0, #[trigger] s.drop_first()[b].0) by {
                assert(s.drop_first()[a] == s[a + 1]);
                assert(s.drop_first()[b] == s[b + 1]);
            }
        }
        lemma_lookup_at(s.drop_first(), i - 1);
    }
}

/// The explicit shape of an insertion at the position where the key belongs.
proof fn lemma_insert_sorted_at<V>(s: Seq<(Seq<char>, V)>, k: Seq<char>, v: V, p: int, found: bool)
    requires
        keys_sorted(s),
        0 <= p <= s.len(),
        forall|i: int| 0 <= i < p ==> str_lt(#[trigger] s[i].0, k),
        found ==> p < s.len() && s[p].0 == k,
        !found ==> forall|i: int| p <= i < s.len() ==> str_lt(k, #[trigger] s[i].0),
    ensures
        found ==> insert_sorted(s, k, v) == s.update(p, (k, v)),
        !found ==> insert_sorted(s, k, v) == s.insert(p, (k, v)),
    decreases s.len(),
{
    if s.len() == 0 {
        assert(s.insert(p, (k, v)) =~= seq![(k, v)]);
    } else if p == 0 {
        if found {
            assert(s.update(0, (k, v)) =~= seq![(k, v)] + s.drop_first());
        } else {
            lemma_str_lt_irreflexive(k);
            assert(s[0].0 != k);
            assert(s.insert(0, (k, v)) =~= seq![(k, v)] + s);
        }
    } else {
        let t = s.drop_first();
        assert(str_lt(s[0].0, k));
        lemma_str_lt_irreflexive(k);
        lemma_str_lt_asymmetric(s[0].0, k);
        assert(s[0].0 != k);
        assert(!str_lt(k, s[0].0));
        assert(keys_sorted(t)) by {
            assert forall|a: int, b: int| 0 <= a < b < t.len() implies
                str_lt(#[trigger] t[a].0, #[trigger] t[b].0) by {
                assert(t[a] == s[a + 1]);
                assert(t[b] == s[b + 1]);
            }
        }
        assert forall|i: int| 0 <= i < p - 1 implies str_lt(#[trigger] t[i].0, k) by {
            assert(t[i] == s[i + 1]);
        }
        assert forall|i: int| !found && p - 1 <= i < t.len() implies str_lt(k, #[trigger] t[i].0) by {
            assert(t[i] == s[i + 1]);
        }
        lemma_insert_sorted_at(t, k, v, p - 1, found);
        if found {
            assert(s.update(p, (k, v)) =~= seq![s[0]] + t.update(p - 1, (k, v)));
        } else {
            assert(s.insert(p, (k, v)) =~= seq![s[0]] + t.insert(p - 1, (k, v)));
        }
    }
}

/// Looking up in a list with one more pair at its end.
pub proof fn lemma_lookup_push<V>(s: Seq<(Seq<char>, V)>, x: (Seq<char>, V), k: Seq<char>)
    ensures
        lookup(s, k) is Some ==> lookup(s.push(x), k) == lookup(s, k),
        lookup(s, k) is None && x.0 == k ==> lookup(s.push(x), k) == Some(x.1),
        lookup(s, k) is None && x.0 != k ==> lookup(s.push(x), k) is None,
    decreases s.len(),
{
    if s.len() > 0 {
        assert(s.push(x)[0] == s[0]);
        assert(s.push(x).drop_first() =~= s.drop_first().push(x));
        lemma_lookup_push(s.drop_first(), x, k);
    } else {
        assert(s.push(x)[0] == x);
        assert(s.push(x).drop_first() =~= Seq::<(Seq<char>, V)>::empty());
        assert(lookup(s.push(x).drop_first(), k) is None);
    }
}

/// The prefix of a sorted list is sorted, and does not hold the last key.
pub proof fn lemma_sorted_drop_last<V>(s: Seq<(Seq<char>, V)>)
    requires
        keys_sorted(s),
        s.len() > 0,
    ensures
        keys_sorted(s.drop_last()),
        lookup(s.drop_last(), s.last().0) is None,
{
    let t = s.drop_last();
    assert forall|i: int, j: int| 0 <= i < j < t.len() implies str_lt(#[trigger] t[i].0, #[trigger] t[j].0) by {
        assert(t[i] == s[i] && t[j] == s[j]);
    }
    assert forall|i: int| 0 <= i < t.len() implies t[i].0 != s.last().0 by {
        assert(t[i] == s[i]);
        assert(str_lt(s[i].0, s[s.len() - 1].0));
        lemma_str_lt_irreflexive(s.last().0);
    }
    lemma_lookup_absent(t, s.last().0);
}

/// A key is among the keys of a list exactly when a lookup finds it.
pub proof fn lemma_keys_contains_lookup<V>(s: Seq<(Seq<char>, V)>, k: Seq<char>)
    ensures
        keys_of(s).contains(k) <==> lookup(s, k) is Some,
    decreases s.len(),
{
    if s.len() > 0 {
        lemma_keys_contains_lookup(s.drop_first(), k);
        assert(keys_of(s.drop_first()) =~= keys_of(s).drop_first());
        if keys_of(s).contains(k) && s[0].0 != k {
            let i = choose|i: int| 0 <= i < keys_of(s).len() && keys_of(s)[i] == k;
            assert(i > 0);
            assert(keys_of(s.drop_first())[i - 1] == k);
        }
        if lookup(s, k) is Some && s[0].0 != k {
            let i = choose|i: int| 0 <= i < keys_of(s.drop_first()).len() && keys_of(s.drop_first())[i] == k;
            assert(keys_of(s)[i + 1] == k);
        }
        if s[0].0 == k {
            assert(keys_of(s)[0] == k);
        }
    }
}

/// Inserting under a key that is present replaces the value at its index.
pub proof fn lemma_insert_sorted_replace<V>(s: Seq<(Seq<char>, V)>, k: Seq<char>, v: V, i: int)
    requires
        keys_sorted(s),
        0 <= i < s.len(),
        s[i].0 == k,
    ensures
        insert_sorted(s, k, v) == s.update(i, (k, v)),
{
    lemma_insert_sorted_at(s, k, v, i, true);
}

/// Inserting under a key that is absent puts the pair at its sorted position.
pub proof fn lemma_insert_sorted_new<V>(s: Seq<(Seq<char>, V)>, k: Seq<char>, v: V)
    requires
        keys_sorted(s),
        lookup(s, k) is None,
    ensures
        insert_sorted(s, k, v).len() == s.len() + 1,
{
    lemma_insert_sorted_keeps_sorted(s, k, v);
}

/// Insertion keeps a list sorted.
pub proof fn lemma_insert_sorted_keeps_sorted<V>(s: Seq<(Seq<char>, V)>, k: Seq<char>, v: V)
    requires
        keys_sorted(s),
    ensures
        keys_sorted(insert_sorted(s, k, v)),
        insert_sorted(s, k, v).len() == (if lookup(s, k) is Some { s.len() } else { s.len() + 1 }),
{
    // the position where k belongs
    let p = lemma_first_not_below(s, k, 0);
    let found = p < s.len() && s[p].0 == k;
    if !found && p < s.len() {
        lemma_str_lt_total(s[p].0, k);
    }
    assert forall|i: int| !found && p <= i < s.len() implies str_lt(k, #[trigger] s[i].0) by {
        if i > p {
            lemma_str_lt_transitive(k, s[p].0, s[i].0);
        }
    }
    lemma_insert_sorted_at(s, k, v, p, found);
    let t = insert_sorted(s, k, v);
    assert forall|a: int, b: int| 0 <= a < b < t.len() implies str_lt(#[trigger] t[a].0, #[trigger] t[b].0) by {
        if found {
            if a == p {
                assert(str_lt(k, s[b].0));
            } else if b == p {
                assert(str_lt(s[a].0, k));
            }
        } else {
            if a == p {
                assert(t[b] == s[b - 1]);
            } else if b == p {
                assert(t[a] == s[a]);
            } else if a > p {
                assert(t[a] == s[a - 1]);
                assert(t[b] == s[b - 1]);
            } else if b > p {
                assert(t[a] == s[a]);
                assert(t[b] == s[b - 1]);
            }
        }
    }
    if found {
        lemma_lookup_at(s, p);
    } else {
        assert forall|i: int| 0 <= i < s.len() implies s[i].0 != k by {
            lemma_str_lt_irreflexive(k);
        }
        lemma_lookup_absent(s, k);
    }
}

proof fn lemma_first_not_below<V>(s: Seq<(Seq<char>, V)>, k: Seq<char>, p: int) -> (q: int)
    requires
        0 <= p <= s.len(),
        forall|i: int| 0 <= i < p ==> str_lt(#[trigger] s[i].0, k),
    ensures
        p <= q <= s.len(),
        forall|i: int| 0 <= i < q ==> str_lt(#[trigger] s[i].0, k),
        q == s.len() || !str_lt(s[q].0, k),
    decreases s.len() - p,
{
    if p == s.len() || !str_lt(s[p].0, k) {
        p
    } else {
        lemma_first_not_below(s, k, p + 1)
    }
}

/// A map from strings to values that keeps its entries sorted by key, as
/// `BTreeMap<String, V>` does; walking it gives the keys in increasing order.
#[derive(Debug)]
pub struct SortedMap<V> {
    entries: Vec<(String, V)>,
}

impl<V> SortedMap<V> {
    closed spec fn raw_pairs(&self) -> Seq<(Seq<char>, V)> {
        self.entries@.map_values(|e: (String, V)| (e.0@, e.1))
    }

    /// The entries, keys taken by their characters, in increasing key order.
    pub closed spec fn pairs(&self) -> Seq<(Seq<char>, V)> {
        if keys_sorted(self.raw_pairs()) {
            self.raw_pairs()
        } else {
            Seq::empty()
        }
    }

    #[verifier::type_invariant]
    closed spec fn well_formed(&self) -> bool {
        keys_sorted(self.raw_pairs())
    }

    /// The entries are sorted by key, with no key twice.
    pub proof fn lemma_sorted(m: &Self)
        ensures
            keys_sorted(m.pairs()),
    {
    }

    /// An empty map.
    pub fn new() -> (m: Self)
        ensures
            m.pairs() == Seq::<(Seq<char>, V)>::empty(),
    {
        let m = SortedMap { entries: Vec::new() };
        assert(m.pairs() =~= Seq::<(Seq<char>, V)>::empty());
        m
    }

    /// The number of entries.
    pub fn len(&self) -> (n: usize)
        ensures
            n == self.pairs().len(),
    {
        proof {
            use_type_invariant(self);
        }
        self.entries.len()
    }

    /// The key of the `i`-th entry.
    pub fn key_at(&self, i: usize) -> (k: &String)
        requires
            i < self.pairs().len(),
        ensures
            k@ == self.pairs()[i as int].0,
    {
        proof {
            use_type_invariant(self);
        }
        &self.entries[i].0
    }

    /// The value of the `i`-th entry.
    pub fn value_at(&self, i: usize) -> (v: &V)
        requires
            i < self.pairs().len(),
        ensures
            *v == self.pairs()[i as int].1,
    {
        proof {
            use_type_invariant(self);
        }
        &self.entries[i].1
    }

    /// Where `key` stands, or would stand: the first index whose key does not sort
    /// before `key`, and whether the key there is `key` itself.
    fn find_slot(&self, key: &Vec<char>) -> (r: (usize, bool))
        ensures
            r.0 <= self.pairs().len(),
            forall|i: int| 0 <= i < r.0 ==> str_lt(#[trigger] self.pairs()[i].0, key@),
            r.1 ==> r.0 < self.pairs().len() && self.pairs()[r.0 as int].0 == key@,
            !r.1 ==> forall|i: int|
                r.0 <= i < self.pairs().len() ==> str_lt(key@, #[trigger] self.pairs()[i].0),
    {
        proof {
            use_type_invariant(self);
        }
        let n = self.entries.len();
        let mut i: usize = 0;
        while i < n
            invariant
                n == self.pairs().len(),
                keys_sorted(self.pairs()),
                i <= n,
                forall|j: int| 0 <= j < i ==> str_lt(#[trigger] self.pairs()[j].0, key@),
            decreases n - i,
        {
            let k = chars_of(self.entries[i].0.as_str());
            assert(self.pairs()[i as int].0 == k@);
            match compare_chars(&k, key) {
                Comparison::Less => {},
                Comparison::Equal => {
                    return (i, true);
                },
                Comparison::Greater => {
                    assert forall|j: int| i <= j < n implies str_lt(key@, #[trigger] self.pairs()[j].0) by {
                        if j > i {
                            lemma_str_lt_transitive(key@, self.pairs()[i as int].0, self.pairs()[j].0);
                        }
                    }
                    return (i, false);
                },
            }
            i = i + 1;
        }
        (n, false)
    }

    /// The index of the entry with key `key`, if there is one.
    pub fn index_of(&self, key: &str) -> (r: Option<usize>)
        ensures
            r matches Some(i) ==> i < self.pairs().len() && self.pairs()[i as int].0 == key@,
            r is None <==> lookup(self.pairs(), key@) is None,
            r matches Some(i) ==> lookup(self.pairs(), key@) == Some(self.pairs()[i as int].1),
    {
        proof {
            use_type_invariant(self);
        }
        let k = chars_of(key);
        let (i, found) = self.find_slot(&k);
        if found {
            proof {
                lemma_lookup_at(self.pairs(), i as int);
            }
            Some(i)
        } else {
            proof {
                assert forall|j: int| 0 <= j < self.pairs().len() implies self.pairs()[j].0 != key@ by {
                    lemma_str_lt_irreflexive(key@);
                }
                lemma_lookup_absent(self.pairs(), key@);
            }
            None
        }
    }

    /// The value stored under `key`, if any.
    pub fn get(&self, key: &str) -> (r: Option<&V>)
        ensures
            r is Some <==> lookup(self.pairs(), key@) is Some,
            r matches Some(v) ==> lookup(self.pairs(), key@) == Some(*v),
    {
        proof {
            use_type_invariant(self);
        }
        match self.index_of(key) {
            Some(i) => Some(&self.entries[i].1),
            None => None,
        }
    }

    /// Whether some entry has key `key`.
    pub fn contains_key(&self, key: &str) -> (r: bool)
        ensures
            r == lookup(self.pairs(), key@) is Some,
    {
        self.index_of(key).is_some()
    }

    /// Stores `value` under `key`, replacing what was stored there before.
    pub fn insert(&mut self, key: String, value: V)
        ensures
            final(self).pairs() == insert_sorted(old(self).pairs(), key@, value),
    {
        proof {
            use_type_invariant(&*self);
        }
        let k = chars_of(key.as_str());
        let (i, found) = self.find_slot(&k);
        let ghost old_pairs = self.pairs();
        proof {
            lemma_insert_sorted_at(old_pairs, key@, value, i as int, found);
            lemma_insert_sorted_keeps_sorted(old_pairs, key@, value);
        }
        if found {
            let mut entries: Vec<(String, V)> = Vec::new();
        std::mem::swap(&mut entries, &mut self.entries);
            entries.set(i, (key, value));
            proof {
                assert(entries@.map_values(|e: (String, V)| (e.0@, e.1)) =~= old_pairs.update(
                    i as int,
                    (k@, value),
                ));
            }
            self.entries = entries;
        } else {
            let mut entries: Vec<(String, V)> = Vec::new();
        std::mem::swap(&mut entries, &mut self.entries);
            entries.insert(i, (key, value));
            proof {
                assert(entries@.map_values(|e: (String, V)| (e.0@, e.1)) =~= old_pairs.insert(
                    i as int,
                    (k@, value),
                ));
            }
            self.entries = entries;
        }
    }

    /// Replaces the value of the `i`-th entry, keeping its key.
    pub fn set_value_at(&mut self, i: usize, value: V)
        requires
            i < old(self).pairs().len(),
        ensures
            final(self).pairs() == old(self).pairs().update(i as int, (old(self).pairs()[i as int].0, value)),
    {
        proof {
            use_type_invariant(&*self);
        }
        let ghost old_pairs = self.pairs();
        let mut entries: Vec<(String, V)> = Vec::new();
        std::mem::swap(&mut entries, &mut self.entries);
        let (key, _old) = entries.remove(i);
        entries.insert(i, (key, value));
        proof {
            assert(entries@.map_values(|e: (String, V)| (e.0@, e.1)) =~= old_pairs.update(
                i as int,
                (old_pairs[i as int].0, value),
            ));
        }
        self.entries = entries;
    }
}

} // verus!
