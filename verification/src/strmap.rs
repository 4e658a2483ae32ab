//! Ordered maps and sets keyed by strings.
//!
//! Keys are kept strictly increasing in the lexicographic order of their characters, which is
//! the order in which `String` compares (UTF-8 byte order equals code point order).

use vstd::prelude::*;

verus! {

/// Strict lexicographic order on character sequences.
pub open spec fn lex_lt(a: Seq<char>, b: Seq<char>) -> bool
    decreases a.len(),
{
    if a.len() == 0 {
        b.len() > 0
    } else if b.len() == 0 {
        false
    } else if a[0] != b[0] {
        a[0] < b[0]
    } else {
        lex_lt(a.drop_first(), b.drop_first())
    }
}

pub proof fn lemma_lex_irreflexive(a: Seq<char>)
    ensures
        !lex_lt(a, a),
    decreases a.len(),
{
    if a.len() > 0 {
        lemma_lex_irreflexive(a.drop_first());
    }
}

pub proof fn lemma_lex_transitive(a: Seq<char>, b: Seq<char>, c: Seq<char>)
    requires
        lex_lt(a, b),
        lex_lt(b, c),
    ensures
        lex_lt(a, c),
    decreases a.len(),
{
    if a.len() > 0 && b.len() > 0 && c.len() > 0 {
        if a[0] == b[0] && b[0] == c[0] {
            lemma_lex_transitive(a.drop_first(), b.drop_first(), c.drop_first());
        }
    }
}

pub proof fn lemma_lex_total(a: Seq<char>, b: Seq<char>)
    ensures
        lex_lt(a, b) || lex_lt(b, a) || a == b,
    decreases a.len(),
{
    if a.len() > 0 && b.len() > 0 {
        if a[0] == b[0] {
            lemma_lex_total(a.drop_first(), b.drop_first());
            if a.drop_first() == b.drop_first() {
                assert(a =~= seq![a[0]] + a.drop_first());
                assert(b =~= seq![b[0]] + b.drop_first());
            }
        } else {
        }
    } else if a.len() == 0 && b.len() == 0 {
        assert(a =~= b);
    }
}

pub proof fn lemma_lex_asymmetric(a: Seq<char>, b: Seq<char>)
    requires
        lex_lt(a, b),
    ensures
        !lex_lt(b, a),
        a != b,
{
    if lex_lt(b, a) {
        lemma_lex_transitive(a, b, a);
        lemma_lex_irreflexive(a);
    }
    if a == b {
        lemma_lex_irreflexive(a);
    }
}

/// Three-way outcome of a comparison.
#[derive(Clone, Copy, Debug, PartialEq, Eq, Structural)]
pub enum Cmp3 {
    Less,
    Equal,
    Greater,
}

/// Lexicographic comparison of two character sequences.
pub fn compare_chars(a: &[char], b: &[char]) -> (r: Cmp3)
    ensures
        r == Cmp3::Less <==> lex_lt(a@, b@),
        r == Cmp3::Equal <==> a@ == b@,
        r == Cmp3::Greater <==> lex_lt(b@, a@),
{
    let mut i: usize = 0;
    while i < a.len() && i < b.len()
        invariant
            i <= a@.len(),
            i <= b@.len(),
            a@.take(i as int) == b@.take(i as int),
        decreases a@.len() - i,
    {
        if a[i] != b[i] {
            proof {
                lemma_lex_prefix(a@, b@, i as int);
            }
            if a[i] < b[i] {
                proof {
                    lemma_lex_asymmetric(a@, b@);
                }
                return Cmp3::Less;
            } else {
                proof {
                    lemma_lex_prefix(b@, a@, i as int);
                    lemma_lex_asymmetric(b@, a@);
                }
                return Cmp3::Greater;
            }
        }
        i = i + 1;
        assert(a@.take(i as int) =~= a@.take(i - 1).push(a@[i - 1]));
        assert(b@.take(i as int) =~= b@.take(i - 1).push(b@[i - 1]));
    }
    proof {
        lemma_lex_prefix(a@, b@, i as int);
    }
    if a.len() == b.len() {
        assert(a@ =~= a@.take(i as int));
        assert(b@ =~= b@.take(i as int));
        proof {
            lemma_lex_irreflexive(a@);
        }
        Cmp3::Equal
    } else if a.len() < b.len() {
        proof {
            lemma_lex_asymmetric(a@, b@);
        }
        Cmp3::Less
    } else {
        proof {
            lemma_lex_asymmetric(b@, a@);
        }
        Cmp3::Greater
    }
}

/// With a common prefix of length `i`, the order is decided at position `i`.
proof fn lemma_lex_prefix(a: Seq<char>, b: Seq<char>, i: int)
    requires
        0 <= i <= a.len(),
        i <= b.len(),
        a.take(i) == b.take(i),
    ensures
        i < a.len() && i < b.len() && a[i] != b[i] ==> (lex_lt(a, b) <==> a[i] < b[i]),
        i == a.len() && i < b.len() ==> lex_lt(a, b),
        i == b.len() && i < a.len() ==> lex_lt(b, a),
    decreases i,
{
    if i > 0 {
        assert(a[0] == a.take(i)[0]);
        assert(b[0] == b.take(i)[0]);
        assert(a.drop_first().take(i - 1) =~= a.take(i).drop_first());
        assert(b.drop_first().take(i - 1) =~= b.take(i).drop_first());
        lemma_lex_prefix(a.drop_first(), b.drop_first(), i - 1);
    }
}

/// Compares two strings in `String` order.
pub fn compare_str(a: &str, b: &str) -> (r: Cmp3)
    ensures
        r == Cmp3::Less <==> lex_lt(a@, b@),
        r == Cmp3::Equal <==> a@ == b@,
        r == Cmp3::Greater <==> lex_lt(b@, a@),
{
    let x = crate::text::chars_of(a);
    let y = crate::text::chars_of(b);
    compare_chars(x.as_slice(), y.as_slice())
}

/// Keys strictly increasing.
pub open spec fn sorted_keys(keys: Seq<Seq<char>>) -> bool {
    forall|i: int, j: int| 0 <= i < j < keys.len() ==> lex_lt(keys[i], keys[j])
}

spec fn entry_keys<V>(e: Seq<(String, V)>) -> Seq<Seq<char>> {
    Seq::new(e.len(), |i: int| e[i].0@)
}

spec fn entry_values<V>(e: Seq<(String, V)>) -> Seq<V> {
    Seq::new(e.len(), |i: int| e[i].1)
}

/// A map from strings to values, ordered by key.
#[derive(Debug, PartialEq, Eq)]
pub struct StrMap<V> {
    entries: Vec<(String, V)>,
}

impl<V> StrMap<V> {
    /// Keys in increasing order.
    pub closed spec fn keys(&self) -> Seq<Seq<char>> {
        entry_keys(self.entries@)
    }

    /// The key strings themselves, in order.
    pub closed spec fn raw_keys(&self) -> Seq<String> {
        Seq::new(self.entries@.len(), |i: int| self.entries@[i].0)
    }

    /// Values, in the order of their keys.
    pub closed spec fn values(&self) -> Seq<V> {
        entry_values(self.entries@)
    }

    /// Keys are strictly increasing; every map keeps this.
    #[verifier::type_invariant]
    pub open spec fn wf(&self) -> bool {
        sorted_keys(self.keys())
    }

    /// There are as many values as keys.
    pub proof fn lemma_lengths(&self)
        ensures
            self.keys().len() == self.values().len(),
            self.raw_keys().len() == self.keys().len(),
            forall|i: int| 0 <= i < self.keys().len() ==> #[trigger] self.raw_keys()[i]@ == self.keys()[i],
    {
    }

    /// The map view.
    pub open spec fn map(&self) -> Map<Seq<char>, V> {
        Map::new(
            |k: Seq<char>| self.keys().contains(k),
            |k: Seq<char>| self.values()[self.keys().index_of(k)],
        )
    }

    /// Whether the key is present.
    pub open spec fn has(&self, k: Seq<char>) -> bool {
        self.keys().contains(k)
    }

    /// Number of entries.
    pub open spec fn size(&self) -> nat {
        self.keys().len()
    }

    /// An empty map.
    pub fn new() -> (r: Self)
        ensures
            r.keys() == Seq::<Seq<char>>::empty(),
            r.values() == Seq::<V>::empty(),
    {
        let r = StrMap { entries: Vec::new() };
        assert(r.keys() =~= Seq::<Seq<char>>::empty());
        assert(r.values() =~= Seq::<V>::empty());
        r
    }

    /// Number of entries.
    pub fn len(&self) -> (r: usize)
        ensures
            r == self.keys().len(),
            r == self.values().len(),
    {
        self.entries.len()
    }

    /// The key at a position.
    pub fn key_at(&self, i: usize) -> (r: &String)
        requires
            i < self.keys().len(),
        ensures
            r@ == self.keys()[i as int],
    {
        &self.entries[i].0
    }

    /// The value at a position.
    pub fn value_at(&self, i: usize) -> (r: &V)
        requires
            i < self.keys().len(),
        ensures
            *r == self.values()[i as int],
    {
        &self.entries[i].1
    }

    /// Position of a key, if present.
    pub fn position(&self, key: &str) -> (r: Option<usize>)
        ensures
            match r {
                Some(i) => i < self.keys().len() && self.keys()[i as int] == key@,
                None => !self.keys().contains(key@),
            },
    {
        proof {
            use_type_invariant(self);
        }
        let k = crate::text::chars_of(key);
        let mut i: usize = 0;
        while i < self.entries.len()
            invariant
                i <= self.entries@.len(),
                k@ == key@,
                forall|j: int| 0 <= j < i ==> self.keys()[j] != key@,
            decreases self.entries@.len() - i,
        {
            let c = crate::text::chars_of(self.entries[i].0.as_str());
            if crate::text::chars_eq(c.as_slice(), k.as_slice()) {
                return Some(i);
            }
            i = i + 1;
        }
        assert forall|j: int| 0 <= j < self.keys().len() implies self.keys()[j] != key@ by {}
        None
    }

    /// The value stored for a key.
    pub fn get(&self, key: &str) -> (r: Option<&V>)
        ensures
            match r {
                Some(v) => self.keys().contains(key@) && *v == self.values()[self.keys().index_of(key@)],
                None => !self.keys().contains(key@),
            },
            match r {
                Some(v) => self.map().contains_key(key@) && *v == self.map()[key@],
                None => !self.map().contains_key(key@),
            },
    {
        proof {
            use_type_invariant(self);
        }
        match self.position(key) {
            Some(i) => {
                proof {
                    lemma_index_of_sorted(self.keys(), i as int);
                }
                Some(&self.entries[i].1)
            },
            None => None,
        }
    }

    /// Whether a key is present.
    pub fn contains_key(&self, key: &str) -> (r: bool)
        ensures
            r == self.keys().contains(key@),
    {
        proof {
            use_type_invariant(self);
        }
        match self.position(key) {
            Some(_) => true,
            None => false,
        }
    }

    /// Inserts or replaces the value of a key, keeping the keys ordered.
    pub fn insert(&mut self, key: String, value: V) -> (r: Option<V>)
        ensures
            final(self).map() == old(self).map().insert(key@, value),
            final(self).keys().contains(key@),
            final(self).values()[final(self).keys().index_of(key@)] == value,
            forall|k: Seq<char>| k != key@ ==> (final(self).keys().contains(k) == old(self).keys().contains(k)),
            forall|k: Seq<char>|
                k != key@ && old(self).keys().contains(k) ==> final(self).values()[final(self).keys().index_of(k)] == old(self).values()[old(self).keys().index_of(k)],
            match r {
                Some(v) => old(self).keys().contains(key@) && v == old(self).values()[old(self).keys().index_of(key@)],
                None => !old(self).keys().contains(key@),
            },
            final(self).keys().len() == old(self).keys().len() + (if old(self).keys().contains(key@) {
                0int
            } else {
                1int
            }),
    {
        let ghost before = *self;
        let r = self.insert_entry(key, value);
        proof {
            use_type_invariant(&*self);
            let after = *self;
            assert forall|k: Seq<char>| #[trigger] after.map().dom().contains(k) == before.map().insert(key@, value).dom().contains(k) by {}
            assert forall|k: Seq<char>| after.map().dom().contains(k) implies #[trigger] after.map()[k] == before.map().insert(key@, value)[k] by {}
            assert(after.map() =~= before.map().insert(key@, value));
        }
        r
    }

    fn insert_entry(&mut self, key: String, value: V) -> (r: Option<V>)
        ensures
            final(self).keys().contains(key@),
            final(self).values()[final(self).keys().index_of(key@)] == value,
            forall|k: Seq<char>| k != key@ ==> (final(self).keys().contains(k) == old(self).keys().contains(k)),
            forall|k: Seq<char>|
                k != key@ && old(self).keys().contains(k) ==> final(self).values()[final(self).keys().index_of(k)] == old(self).values()[old(self).keys().index_of(k)],
            match r {
                Some(v) => old(self).keys().contains(key@) && v == old(self).values()[old(self).keys().index_of(key@)],
                None => !old(self).keys().contains(key@),
            },
            final(self).keys().len() == old(self).keys().len() + (if old(self).keys().contains(key@) {
                0int
            } else {
                1int
            }),
    {
        proof {
            use_type_invariant(&*self);
        }
        let mut entries: Vec<(String, V)> = Vec::new();
        std::mem::swap(&mut entries, &mut self.entries);
        let kc = crate::text::chars_of(key.as_str());
        let mut i: usize = 0;
        let ghost old_keys = entry_keys(entries@);
        let ghost old_vals = entry_values(entries@);
        let ghost old_entries = entries@;
        let mut found = false;
        let mut stop = false;
        while i < entries.len() && !found && !stop
            invariant
                i <= entries@.len(),
                kc@ == key@,
                entry_keys(entries@) == old_keys,
                entry_values(entries@) == old_vals,
                entries@ == old_entries,
                sorted_keys(entry_keys(entries@)),
                forall|j: int| 0 <= j < i ==> lex_lt(entry_keys(entries@)[j], key@),
                found ==> i < entries@.len() && entry_keys(entries@)[i as int] == key@,
                stop ==> i < entries@.len() && lex_lt(key@, entry_keys(entries@)[i as int]),
            decreases entries@.len() - i, if found || stop { 0int } else { 1int },
        {
            let c = crate::text::chars_of(entries[i].0.as_str());
            match compare_chars(c.as_slice(), kc.as_slice()) {
                Cmp3::Less => {
                    i = i + 1;
                },
                Cmp3::Equal => {
                    found = true;
                },
                Cmp3::Greater => {
                    stop = true;
                },
            }
        }
        if found {
            let (_, previous) = entries.remove(i);
            entries.insert(i, (key, value));
            proof {
                assert(entries@ =~= old_entries.update(i as int, (key, value)));
                assert(entry_keys(entries@) =~= old_keys);
                assert(entry_values(entries@) =~= old_vals.update(i as int, value));
                lemma_index_of_sorted(old_keys, i as int);
                assert forall|k: Seq<char>|
                    k != key@ && old_keys.contains(k) implies entry_values(entries@)[entry_keys(entries@).index_of(
                    k,
                )] == old_vals[old_keys.index_of(k)] by {
                    let t = choose|t: int| 0 <= t < old_keys.len() && old_keys[t] == k;
                    lemma_index_of_sorted(old_keys, t);
                }
                assert(old_entries[i as int].1 == previous);
            }
            self.entries = entries;
            return Some(previous);
        }
        proof {
            assert(!old_keys.contains(key@)) by {
                if old_keys.contains(key@) {
                    let t = choose|t: int| 0 <= t < old_keys.len() && old_keys[t] == key@;
                    if t < i {
                        lemma_lex_irreflexive(key@);
                    } else {
                        assert(stop);
                        if t == i {
                            lemma_lex_irreflexive(key@);
                        } else {
                            lemma_lex_transitive(key@, old_keys[i as int], key@);
                            lemma_lex_irreflexive(key@);
                        }
                    }
                }
            }
        }
        entries.insert(i, (key, value));
        proof {
            let nk = entry_keys(entries@);
            assert(nk =~= old_keys.insert(i as int, key@));
            assert(entry_values(entries@) =~= old_vals.insert(i as int, value));
            assert forall|b: int| i < b < nk.len() implies lex_lt(key@, nk[b]) by {
                assert(stop);
                assert(nk[b] == old_keys[b - 1]);
                if b - 1 > i {
                    lemma_lex_transitive(key@, old_keys[i as int], old_keys[b - 1]);
                }
            }
            assert forall|a: int, b: int| 0 <= a < b < nk.len() implies lex_lt(nk[a], nk[b]) by {
                if a < i && b == i {
                } else if a == i && b > i {
                } else if a < i && b > i {
                    lemma_lex_transitive(nk[a], key@, nk[b]);
                } else if a > i {
                    assert(nk[a] == old_keys[a - 1]);
                    assert(nk[b] == old_keys[b - 1]);
                } else {
                    assert(nk[a] == old_keys[a]);
                    assert(nk[b] == old_keys[b]);
                }
            }
            lemma_index_of_sorted(nk, i as int);
            assert forall|k: Seq<char>| k != key@ implies (nk.contains(k) == old_keys.contains(
                k,
            )) by {
                if nk.contains(k) {
                    let t = choose|t: int| 0 <= t < nk.len() && nk[t] == k;
                    if t < i {
                        assert(old_keys[t] == k);
                    } else {
                        assert(old_keys[t - 1] == k);
                    }
                }
                if old_keys.contains(k) {
                    let t = choose|t: int| 0 <= t < old_keys.len() && old_keys[t] == k;
                    if t < i {
                        assert(nk[t] == k);
                    } else {
                        assert(nk[t + 1] == k);
                    }
                }
            }
            assert forall|k: Seq<char>|
                k != key@ && old_keys.contains(k) implies entry_values(entries@)[nk.index_of(k)]
                == old_vals[old_keys.index_of(k)] by {
                let t = choose|t: int| 0 <= t < old_keys.len() && old_keys[t] == k;
                lemma_index_of_sorted(old_keys, t);
                if t < i {
                    lemma_index_of_sorted(nk, t);
                } else {
                    lemma_index_of_sorted(nk, t + 1);
                }
            }
        }
        self.entries = entries;
        None
    }

    /// Removes a key, returning its value.
    pub fn remove(&mut self, key: &str) -> (r: Option<V>)
        ensures
            final(self).map() == old(self).map().remove(key@),
            !final(self).keys().contains(key@),
            forall|k: Seq<char>| k != key@ ==> (final(self).keys().contains(k) == old(self).keys().contains(k)),
            forall|k: Seq<char>|
                k != key@ && old(self).keys().contains(k) ==> final(self).values()[final(self).keys().index_of(k)] == old(self).values()[old(self).keys().index_of(k)],
            match r {
                Some(v) => old(self).keys().contains(key@) && v == old(self).values()[old(self).keys().index_of(key@)],
                None => !old(self).keys().contains(key@) && final(self).keys() == old(self).keys()
                    && final(self).values() == old(self).values(),
            },
    {
        let ghost before = *self;
        let r = self.remove_entry(key);
        proof {
            use_type_invariant(&*self);
            let after = *self;
            assert forall|k: Seq<char>| #[trigger] after.map().dom().contains(k) == before.map().remove(key@).dom().contains(k) by {}
            assert forall|k: Seq<char>| after.map().dom().contains(k) implies #[trigger] after.map()[k] == before.map().remove(key@)[k] by {}
            assert(after.map() =~= before.map().remove(key@));
        }
        r
    }

    fn remove_entry(&mut self, key: &str) -> (r: Option<V>)
        ensures
            !final(self).keys().contains(key@),
            forall|k: Seq<char>| k != key@ ==> (final(self).keys().contains(k) == old(self).keys().contains(k)),
            forall|k: Seq<char>|
                k != key@ && old(self).keys().contains(k) ==> final(self).values()[final(self).keys().index_of(k)] == old(self).values()[old(self).keys().index_of(k)],
            match r {
                Some(v) => old(self).keys().contains(key@) && v == old(self).values()[old(self).keys().index_of(key@)],
                None => !old(self).keys().contains(key@) && final(self).keys() == old(self).keys()
                    && final(self).values() == old(self).values(),
            },
    {
        proof {
            use_type_invariant(&*self);
        }
        match self.position(key) {
            None => None,
            Some(i) => {
                let mut entries: Vec<(String, V)> = Vec::new();
                std::mem::swap(&mut entries, &mut self.entries);
                let ghost old_keys = entry_keys(entries@);
                let ghost old_vals = entry_values(entries@);
                let (_, v) = entries.remove(i);
                proof {
                    let nk = entry_keys(entries@);
                    assert(nk =~= old_keys.remove(i as int));
                    assert(entry_values(entries@) =~= old_vals.remove(i as int));
                    lemma_index_of_sorted(old_keys, i as int);
                    assert forall|a: int, b: int| 0 <= a < b < nk.len() implies lex_lt(
                        nk[a],
                        nk[b],
                    ) by {
                        if a < i && b >= i {
                            assert(nk[b] == old_keys[b + 1]);
                        } else if a >= i {
                            assert(nk[a] == old_keys[a + 1]);
                            assert(nk[b] == old_keys[b + 1]);
                        }
                    }
                    assert forall|k: Seq<char>| k != key@ implies (nk.contains(k)
                        == old_keys.contains(k)) by {
                        if nk.contains(k) {
                            let t = choose|t: int| 0 <= t < nk.len() && nk[t] == k;
                            if t < i {
                                assert(old_keys[t] == k);
                            } else {
                                assert(old_keys[t + 1] == k);
                            }
                        }
                        if old_keys.contains(k) {
                            let t = choose|t: int| 0 <= t < old_keys.len() && old_keys[t] == k;
                            if t < i {
                                assert(nk[t] == k);
                            } else if t > i {
                                assert(nk[t - 1] == k);
                            }
                        }
                    }
                    assert(!nk.contains(key@)) by {
                        if nk.contains(key@) {
                            let t = choose|t: int| 0 <= t < nk.len() && nk[t] == key@;
                            if t < i {
                                assert(lex_lt(old_keys[t], old_keys[i as int]));
                                lemma_lex_irreflexive(key@);
                            } else {
                                assert(lex_lt(old_keys[i as int], old_keys[t + 1]));
                                lemma_lex_irreflexive(key@);
                            }
                        }
                    }
                    assert forall|k: Seq<char>|
                        k != key@ && old_keys.contains(k) implies entry_values(entries@)[nk.index_of(k)]
                        == old_vals[old_keys.index_of(k)] by {
                        let t = choose|t: int| 0 <= t < old_keys.len() && old_keys[t] == k;
                        lemma_index_of_sorted(old_keys, t);
                        if t < i {
                            lemma_index_of_sorted(nk, t);
                        } else {
                            lemma_index_of_sorted(nk, t - 1);
                        }
                    }
                }
                self.entries = entries;
                Some(v)
            },
        }
    }
}

impl<V: Clone> Clone for StrMap<V> {
    fn clone(&self) -> (r: Self)
        ensures
            r.keys() == self.keys(),
            r.raw_keys() == self.raw_keys(),
            r.values().len() == self.values().len(),
            forall|i: int| 0 <= i < self.values().len() ==> cloned::<V>(self.values()[i], #[trigger] r.values()[i]),
    {
        proof {
            use_type_invariant(self);
        }
        let mut entries: Vec<(String, V)> = Vec::new();
        let mut i: usize = 0;
        while i < self.entries.len()
            invariant
                i <= self.entries@.len(),
                entries@.len() == i,
                forall|j: int| 0 <= j < i ==> (#[trigger] entries@[j]).0 == self.entries@[j].0,
                forall|j: int| 0 <= j < i ==> cloned::<V>(self.entries@[j].1, #[trigger] entries@[j].1),
            decreases self.entries@.len() - i,
        {
            let k = self.entries[i].0.clone();
            let v = self.entries[i].1.clone();
            entries.push((k, v));
            i = i + 1;
        }
        assert(entry_keys(entries@) =~= self.keys());
        let r = StrMap { entries };
        assert(r.raw_keys() =~= self.raw_keys());
        r
    }
}

impl StrMap<String> {
    /// A copy of a map of strings, with the same keys and the same values.
    pub fn duplicate(&self) -> (r: Self)
        ensures
            r.keys() == self.keys(),
            r.raw_keys() == self.raw_keys(),
            r.values() == self.values(),
    {
        let r = self.clone();
        proof {
            assert forall|i: int| 0 <= i < self.values().len() implies r.values()[i] == self.values()[i] by {
                assert(cloned::<String>(self.values()[i], r.values()[i]));
            }
            assert(r.values() =~= self.values());
        }
        r
    }
}

/// In a strictly sorted sequence of keys, `index_of` finds the position of each key.
pub proof fn lemma_index_of_sorted(keys: Seq<Seq<char>>, i: int)
    requires
        sorted_keys(keys),
        0 <= i < keys.len(),
    ensures
        keys.contains(keys[i]),
        keys.index_of(keys[i]) == i,
{
    assert(keys.contains(keys[i]));
    let j = keys.index_of(keys[i]);
    if j < i {
        assert(lex_lt(keys[j], keys[i]));
        lemma_lex_irreflexive(keys[i]);
    } else if j > i {
        assert(lex_lt(keys[i], keys[j]));
        lemma_lex_irreflexive(keys[i]);
    }
}

} // verus!
