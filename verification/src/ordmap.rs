//! An ordered map kept as a vector of entries sorted by key.
//!
//! The process table (keyed by process id) and the environment and server maps
//! (keyed by name) are ordered maps: they are listed, saved and searched in
//! ascending key order.

use vstd::prelude::*;

verus! {

/// Result of comparing two keys.
#[derive(PartialEq, Eq, Structural, Clone, Copy, Debug)]
pub enum KeyOrder {
    Less,
    Equal,
    Greater,
}

/// A key type with a strict total order.
pub trait MapKey: View + Sized {
    spec fn key_lt(a: Self::V, b: Self::V) -> bool;

    proof fn lemma_lt_irreflexive(a: Self::V)
        ensures
            !Self::key_lt(a, a),
    ;

    proof fn lemma_lt_transitive(a: Self::V, b: Self::V, c: Self::V)
        requires
            Self::key_lt(a, b),
            Self::key_lt(b, c),
        ensures
            Self::key_lt(a, c),
    ;

    proof fn lemma_lt_total(a: Self::V, b: Self::V)
        ensures
            a == b || Self::key_lt(a, b) || Self::key_lt(b, a),
    ;

    fn compare(&self, other: &Self) -> (r: KeyOrder)
        ensures
            r == KeyOrder::Less <==> Self::key_lt(self@, other@),
            r == KeyOrder::Equal <==> self@ == other@,
            r == KeyOrder::Greater <==> Self::key_lt(other@, self@),
    ;

    fn duplicate(&self) -> (r: Self)
        ensures
            r@ == self@,
    ;
}

impl MapKey for usize {
    open spec fn key_lt(a: usize, b: usize) -> bool {
        a < b
    }

    proof fn lemma_lt_irreflexive(a: usize) {
    }

    proof fn lemma_lt_transitive(a: usize, b: usize, c: usize) {
    }

    proof fn lemma_lt_total(a: usize, b: usize) {
    }

    fn compare(&self, other: &usize) -> (r: KeyOrder) {
        if *self < *other {
            KeyOrder::Less
        } else if *self == *other {
            KeyOrder::Equal
        } else {
            KeyOrder::Greater
        }
    }

    fn duplicate(&self) -> (r: usize) {
        *self
    }
}


/// Lexicographic order of character sequences, comparing characters by code point.
/// On UTF-8 strings this is the byte order that `String`'s `Ord` uses.
pub open spec fn chars_lt(a: Seq<char>, b: Seq<char>) -> bool
    decreases a.len(),
{
    if a.len() == 0 {
        b.len() > 0
    } else if b.len() == 0 {
        false
    } else if a[0] == b[0] {
        chars_lt(a.drop_first(), b.drop_first())
    } else {
        a[0] < b[0]
    }
}

proof fn lemma_chars_lt_irreflexive(a: Seq<char>)
    ensures
        !chars_lt(a, a),
    decreases a.len(),
{
    if a.len() > 0 {
        lemma_chars_lt_irreflexive(a.drop_first());
    }
}

proof fn lemma_chars_lt_transitive(a: Seq<char>, b: Seq<char>, c: Seq<char>)
    requires
        chars_lt(a, b),
        chars_lt(b, c),
    ensures
        chars_lt(a, c),
    decreases a.len(),
{
    if a.len() > 0 && b.len() > 0 && c.len() > 0 && a[0] == b[0] && b[0] == c[0] {
        lemma_chars_lt_transitive(a.drop_first(), b.drop_first(), c.drop_first());
    }
}

proof fn lemma_chars_lt_total(a: Seq<char>, b: Seq<char>)
    ensures
        a == b || chars_lt(a, b) || chars_lt(b, a),
    decreases a.len(),
{
    if a.len() == 0 && b.len() == 0 {
        assert(a =~= b);
    } else if a.len() > 0 && b.len() > 0 && a[0] == b[0] {
        lemma_chars_lt_total(a.drop_first(), b.drop_first());
        if a.drop_first() == b.drop_first() {
            assert forall|i: int| 0 <= i < a.len() implies a[i] == b[i] by {
                if i > 0 {
                    assert(a[i] == a.drop_first()[i - 1]);
                    assert(b[i] == b.drop_first()[i - 1]);
                }
            }
            assert(a =~= b);
        }
    } else if a.len() > 0 && b.len() > 0 {
        assert(a[0] != b[0]);
    }
}

proof fn lemma_chars_lt_skip(a: Seq<char>, b: Seq<char>, i: int)
    requires
        0 <= i <= a.len(),
        i <= b.len(),
        forall|j: int| 0 <= j < i ==> a[j] == b[j],
    ensures
        chars_lt(a, b) == chars_lt(a.skip(i), b.skip(i)),
    decreases i,
{
    if i > 0 {
        lemma_chars_lt_skip(a.drop_first(), b.drop_first(), i - 1);
        assert(a.drop_first().skip(i - 1) =~= a.skip(i));
        assert(b.drop_first().skip(i - 1) =~= b.skip(i));
    } else {
        assert(a.skip(0) =~= a);
        assert(b.skip(0) =~= b);
    }
}

impl MapKey for String {
    open spec fn key_lt(a: Seq<char>, b: Seq<char>) -> bool {
        chars_lt(a, b)
    }

    proof fn lemma_lt_irreflexive(a: Seq<char>) {
        lemma_chars_lt_irreflexive(a);
    }

    proof fn lemma_lt_transitive(a: Seq<char>, b: Seq<char>, c: Seq<char>) {
        lemma_chars_lt_transitive(a, b, c);
    }

    proof fn lemma_lt_total(a: Seq<char>, b: Seq<char>) {
        lemma_chars_lt_total(a, b);
    }

    fn compare(&self, other: &String) -> (r: KeyOrder) {
        let a = crate::text::to_chars(self.as_str());
        let b = crate::text::to_chars(other.as_str());
        let mut i: usize = 0;
        while i < a.len() && i < b.len() && a[i] == b[i]
            invariant
                a@ == self@,
                b@ == other@,
                i <= a.len(),
                i <= b.len(),
                forall|j: int| 0 <= j < i ==> a@[j] == b@[j],
            decreases a.len() - i,
        {
            i += 1;
        }
        proof {
            lemma_chars_lt_skip(a@, b@, i as int);
            lemma_chars_lt_skip(b@, a@, i as int);
            lemma_chars_lt_irreflexive(a@);
        }
        if i == a.len() && i == b.len() {
            assert(a@ =~= b@);
            KeyOrder::Equal
        } else if i == a.len() {
            assert(a@.skip(i as int).len() == 0);
            KeyOrder::Less
        } else if i == b.len() {
            assert(b@.skip(i as int).len() == 0);
            KeyOrder::Greater
        } else {
            assert(a@.skip(i as int)[0] == a@[i as int]);
            assert(b@.skip(i as int)[0] == b@[i as int]);
            if a[i] < b[i] {
                KeyOrder::Less
            } else {
                assert(a@[i as int] != b@[i as int]);
                KeyOrder::Greater
            }
        }
    }

    fn duplicate(&self) -> (r: String) {
        self.clone()
    }
}

/// Strictly increasing under the key order.
pub open spec fn sorted_keys<K: MapKey>(s: Seq<K::V>) -> bool {
    forall|i: int, j: int| 0 <= i < j < s.len() ==> K::key_lt(#[trigger] s[i], #[trigger] s[j])
}

/// A map whose entries are kept in ascending key order.
pub struct OrdMap<K, V> {
    entries: Vec<(K, V)>,
}

impl<K: MapKey, V> OrdMap<K, V> {
    /// The keys, in ascending order.
    pub closed spec fn keys(&self) -> Seq<K::V> {
        self.entries@.map_values(|e: (K, V)| e.0@)
    }

    /// The values, in the order of their keys.
    pub closed spec fn values(&self) -> Seq<V> {
        self.entries@.map_values(|e: (K, V)| e.1)
    }

    /// The entries are sorted by key.
    pub closed spec fn wf(&self) -> bool {
        sorted_keys::<K>(self.keys())
    }

    closed spec fn pos(&self, k: K::V) -> int {
        choose|i: int| 0 <= i < self.keys().len() && self.keys()[i] == k
    }

    /// The map from keys to values.
    pub closed spec fn map(&self) -> Map<K::V, V> {
        Map::new(|k: K::V| self.keys().contains(k), |k: K::V| self.values()[self.pos(k)])
    }

    proof fn lemma_unique(&self, i: int, j: int)
        requires
            self.wf(),
            0 <= i < self.keys().len(),
            0 <= j < self.keys().len(),
            self.keys()[i] == self.keys()[j],
        ensures
            i == j,
    {
        if i < j {
            K::lemma_lt_irreflexive(self.keys()[i]);
        } else if j < i {
            K::lemma_lt_irreflexive(self.keys()[i]);
        }
    }

    /// The `i`-th key is in the map and maps to the `i`-th value; every key
    /// of the map is one of the keys.
    pub proof fn lemma_map(&self)
        requires
            self.wf(),
        ensures
            self.keys().len() == self.values().len(),
            sorted_keys::<K>(self.keys()),
            forall|i: int|
                0 <= i < self.keys().len() ==> #[trigger] self.map().contains_key(self.keys()[i])
                    && self.map()[self.keys()[i]] == self.values()[i],
            forall|k: K::V| #[trigger]
                self.map().contains_key(k) ==> exists|i: int|
                    0 <= i < self.keys().len() && self.keys()[i] == k,
            self.map().dom().finite(),
            self.map().len() == self.keys().len(),
            self.keys().no_duplicates(),
    {
        assert forall|i: int| 0 <= i < self.keys().len() implies #[trigger] self.map().contains_key(
            self.keys()[i],
        ) && self.map()[self.keys()[i]] == self.values()[i] by {
            let k = self.keys()[i];
            assert(self.keys().contains(k));
            let p = self.pos(k);
            self.lemma_unique(p, i);
        }
        assert(self.map().dom() == self.keys().to_set());
        self.lemma_no_dup();
        self.keys().unique_seq_to_set();
    }

    proof fn lemma_no_dup(&self)
        requires
            self.wf(),
        ensures
            self.keys().no_duplicates(),
    {
        assert forall|i: int, j: int|
            0 <= i < self.keys().len() && 0 <= j < self.keys().len() && i != j implies self.keys()[i]
            != self.keys()[j] by {
            if self.keys()[i] == self.keys()[j] {
                self.lemma_unique(i, j);
            }
        }
    }

    /// An empty map.
    pub fn new() -> (m: Self)
        ensures
            m.wf(),
            m.keys() == Seq::<K::V>::empty(),
            m.map() == Map::<K::V, V>::empty(),
    {
        let m = OrdMap { entries: Vec::new() };
        assert(m.map() =~= Map::<K::V, V>::empty());
        m
    }

    /// The number of entries.
    pub fn len(&self) -> (n: usize)
        requires
            self.wf(),
        ensures
            n == self.keys().len(),
            n == self.map().len(),
    {
        proof {
            self.lemma_map();
        }
        self.entries.len()
    }

    /// Whether the map has no entries.
    pub fn is_empty(&self) -> (b: bool)
        requires
            self.wf(),
        ensures
            b == (self.keys().len() == 0),
            b == self.map().is_empty(),
    {
        proof {
            self.lemma_map();
            if self.keys().len() > 0 {
                assert(self.map().contains_key(self.keys()[0]));
            }
        }
        self.entries.len() == 0
    }

    /// The key at position `i` in ascending order.
    pub fn key_at(&self, i: usize) -> (k: &K)
        requires
            i < self.keys().len(),
        ensures
            k@ == self.keys()[i as int],
    {
        &self.entries[i].0
    }

    /// The value at position `i` in key order.
    pub fn value_at(&self, i: usize) -> (v: &V)
        requires
            i < self.keys().len(),
        ensures
            *v == self.values()[i as int],
    {
        &self.entries[i].1
    }

    /// Position of `k` (`Ok`), or the position where it would be inserted (`Err`).
    pub fn search(&self, k: &K) -> (r: Result<usize, usize>)
        requires
            self.wf(),
        ensures
            r matches Ok(i) ==> i < self.keys().len() && self.keys()[i as int] == k@,
            r matches Err(i) ==> i <= self.keys().len() && (forall|j: int|
                0 <= j < i ==> K::key_lt(#[trigger] self.keys()[j], k@)) && (forall|j: int|
                i <= j < self.keys().len() ==> K::key_lt(k@, #[trigger] self.keys()[j])),
            r is Err <==> !self.map().contains_key(k@),
    {
        let mut i: usize = 0;
        while i < self.entries.len()
            invariant
                self.wf(),
                i <= self.keys().len(),
                self.keys().len() == self.entries@.len(),
                forall|j: int| 0 <= j < i ==> K::key_lt(#[trigger] self.keys()[j], k@),
            decreases self.entries.len() - i,
        {
            let o = k.compare(&self.entries[i].0);
            assert(self.keys()[i as int] == self.entries@[i as int].0@);
            match o {
                KeyOrder::Equal => {
                    proof {
                        self.lemma_map();
                    }
                    return Ok(i);
                },
                KeyOrder::Less => {
                    proof {
                        assert forall|j: int| i <= j < self.keys().len() implies K::key_lt(
                            k@,
                            #[trigger] self.keys()[j],
                        ) by {
                            if j > i {
                                K::lemma_lt_transitive(k@, self.keys()[i as int], self.keys()[j]);
                            }
                        }
                        self.lemma_map();
                        assert forall|j: int| 0 <= j < self.keys().len() implies self.keys()[j]
                            != k@ by {
                            if j < i {
                                K::lemma_lt_irreflexive(k@);
                            } else {
                                K::lemma_lt_irreflexive(k@);
                            }
                        }
                    }
                    return Err(i);
                },
                KeyOrder::Greater => {
                    i += 1;
                },
            }
        }
        proof {
            self.lemma_map();
            assert forall|j: int| 0 <= j < self.keys().len() implies self.keys()[j] != k@ by {
                K::lemma_lt_irreflexive(k@);
            }
        }
        Err(i)
    }

    /// Whether `k` has an entry.
    pub fn contains_key(&self, k: &K) -> (b: bool)
        requires
            self.wf(),
        ensures
            b == self.map().contains_key(k@),
    {
        self.search(k).is_ok()
    }

    /// The value of `k`, if any.
    pub fn get(&self, k: &K) -> (r: Option<&V>)
        requires
            self.wf(),
        ensures
            r is Some <==> self.map().contains_key(k@),
            r matches Some(v) ==> *v == self.map()[k@],
    {
        match self.search(k) {
            Ok(i) => {
                proof {
                    self.lemma_map();
                }
                Some(&self.entries[i].1)
            },
            Err(_) => None,
        }
    }

    /// Sets the value of `k`; returns the value it replaces.
    pub fn insert(&mut self, k: K, v: V) -> (r: Option<V>)
        requires
            old(self).wf(),
        ensures
            final(self).wf(),
            final(self).map() == old(self).map().insert(k@, v),
            r is Some <==> old(self).map().contains_key(k@),
            r matches Some(w) ==> w == old(self).map()[k@],
    {
        proof {
            self.lemma_map();
        }
        match self.search(&k) {
            Ok(i) => {
                let ghost kv = k@;
                let old_entry = self.entries.remove(i);
                self.entries.insert(i, (k, v));
                proof {
                    assert(self.keys() =~= old(self).keys());
                    assert(self.values() =~= old(self).values().update(i as int, v));
                    self.lemma_map();
                    assert forall|key: K::V| #[trigger] self.map().contains_key(key)
                        <==> old(self).map().insert(kv, v).contains_key(key) by {
                        if old(self).map().contains_key(key) {
                            let j = choose|j: int|
                                0 <= j < old(self).keys().len() && old(self).keys()[j] == key;
                            assert(self.map().contains_key(self.keys()[j]));
                        }
                        if self.map().contains_key(key) {
                            let j = choose|j: int| 0 <= j < self.keys().len() && self.keys()[j] == key;
                            assert(old(self).map().contains_key(old(self).keys()[j]));
                        }
                    }
                    assert forall|key: K::V| #[trigger] self.map().contains_key(key) implies self.map()[key]
                        == old(self).map().insert(kv, v)[key] by {
                        let j = choose|j: int| 0 <= j < self.keys().len() && self.keys()[j] == key;
                        assert(self.map()[self.keys()[j]] == self.values()[j]);
                        if j != i {
                            assert(old(self).map()[old(self).keys()[j]] == old(self).values()[j]);
                        }
                    }
                    assert(self.map() =~= old(self).map().insert(kv, v));
                }
                Some(old_entry.1)
            },
            Err(i) => {
                let ghost kv = k@;
                self.entries.insert(i, (k, v));
                proof {
                    assert(self.keys() =~= old(self).keys().insert(i as int, kv));
                    assert(self.values() =~= old(self).values().insert(i as int, v));
                    let ok = old(self).keys();
                    let nk = self.keys();
                    assert forall|a: int, b: int| 0 <= a < b < nk.len() implies K::key_lt(
                        #[trigger] nk[a],
                        #[trigger] nk[b],
                    ) by {
                        if b < i {
                        } else if b == i {
                            assert(nk[a] == ok[a]);
                        } else if a < i {
                            assert(nk[a] == ok[a]);
                            assert(nk[b] == ok[b - 1]);
                            K::lemma_lt_transitive(ok[a], kv, ok[b - 1]);
                        } else if a == i {
                            assert(nk[b] == ok[b - 1]);
                        } else {
                            assert(nk[a] == ok[a - 1]);
                            assert(nk[b] == ok[b - 1]);
                        }
                    }
                    self.lemma_map();
                    assert forall|key: K::V| #[trigger] self.map().contains_key(key)
                        <==> old(self).map().insert(kv, v).contains_key(key) by {
                        if old(self).map().contains_key(key) {
                            let j = choose|j: int| 0 <= j < ok.len() && ok[j] == key;
                            if j < i {
                                assert(nk[j] == key);
                                assert(self.map().contains_key(nk[j]));
                            } else {
                                assert(nk[j + 1] == key);
                                assert(self.map().contains_key(nk[j + 1]));
                            }
                        }
                        if key == kv {
                            assert(nk[i as int] == kv);
                            assert(self.map().contains_key(nk[i as int]));
                        }
                        if self.map().contains_key(key) && key != kv {
                            let j = choose|j: int| 0 <= j < nk.len() && nk[j] == key;
                            if j < i {
                                assert(old(self).map().contains_key(ok[j]));
                            } else if j > i {
                                assert(old(self).map().contains_key(ok[j - 1]));
                            }
                        }
                    }
                    assert forall|key: K::V| #[trigger] self.map().contains_key(key) implies self.map()[key]
                        == old(self).map().insert(kv, v)[key] by {
                        let j = choose|j: int| 0 <= j < nk.len() && nk[j] == key;
                        assert(self.map()[nk[j]] == self.values()[j]);
                        if j < i {
                            assert(old(self).map()[ok[j]] == old(self).values()[j]);
                        } else if j > i {
                            assert(old(self).map()[ok[j - 1]] == old(self).values()[j - 1]);
                        }
                    }
                    assert(self.map() =~= old(self).map().insert(kv, v));
                }
                None
            },
        }
    }

    /// Removes the entry of `k`; returns its value.
    pub fn remove(&mut self, k: &K) -> (r: Option<V>)
        requires
            old(self).wf(),
        ensures
            final(self).wf(),
            final(self).map() == old(self).map().remove(k@),
            r is Some <==> old(self).map().contains_key(k@),
            r matches Some(w) ==> w == old(self).map()[k@],
    {
        proof {
            self.lemma_map();
        }
        match self.search(k) {
            Ok(i) => {
                let e = self.entries.remove(i);
                proof {
                    let ok = old(self).keys();
                    let nk = self.keys();
                    assert(nk =~= ok.remove(i as int));
                    assert(self.values() =~= old(self).values().remove(i as int));
                    assert forall|a: int, b: int| 0 <= a < b < nk.len() implies K::key_lt(
                        #[trigger] nk[a],
                        #[trigger] nk[b],
                    ) by {
                        if b < i {
                        } else if a < i {
                            assert(nk[b] == ok[b + 1]);
                        } else {
                            assert(nk[a] == ok[a + 1]);
                            assert(nk[b] == ok[b + 1]);
                        }
                    }
                    self.lemma_map();
                    let km = k@;
                    assert forall|key: K::V| #[trigger] self.map().contains_key(key)
                        <==> old(self).map().remove(km).contains_key(key) by {
                        if old(self).map().contains_key(key) && key != km {
                            let j = choose|j: int| 0 <= j < ok.len() && ok[j] == key;
                            if j < i {
                                assert(self.map().contains_key(nk[j]));
                            } else {
                                assert(j != i);
                                assert(nk[j - 1] == key);
                                assert(self.map().contains_key(nk[j - 1]));
                            }
                        }
                        if self.map().contains_key(key) {
                            let j = choose|j: int| 0 <= j < nk.len() && nk[j] == key;
                            let oj = if j < i { j } else { j + 1 };
                            assert(ok[oj] == key);
                            assert(old(self).map().contains_key(ok[oj]));
                            if key == km {
                                old(self).lemma_unique(oj, i as int);
                            }
                        }
                    }
                    assert forall|key: K::V| #[trigger] self.map().contains_key(key) implies self.map()[key]
                        == old(self).map().remove(km)[key] by {
                        let j = choose|j: int| 0 <= j < nk.len() && nk[j] == key;
                        assert(self.map()[nk[j]] == self.values()[j]);
                        if j < i {
                            assert(old(self).map()[ok[j]] == old(self).values()[j]);
                        } else {
                            assert(old(self).map()[ok[j + 1]] == old(self).values()[j + 1]);
                        }
                    }
                    assert(self.map() =~= old(self).map().remove(km));
                    assert(e.1 == old(self).values()[i as int]);
                }
                Some(e.1)
            },
            Err(_) => {
                proof {
                    assert(old(self).map().remove(k@) =~= old(self).map());
                }
                None
            },
        }
    }

    /// Removes every entry.
    pub fn clear(&mut self)
        ensures
            final(self).wf(),
            final(self).keys() == Seq::<K::V>::empty(),
            final(self).map() == Map::<K::V, V>::empty(),
    {
        self.entries.clear();
        assert(self.keys() =~= Seq::<K::V>::empty());
        assert(self.map() =~= Map::<K::V, V>::empty());
    }

    /// Sets every entry of `other` in this map, replacing values of keys present in both.
    pub fn extend(&mut self, other: OrdMap<K, V>)
        requires
            old(self).wf(),
            other.wf(),
        ensures
            final(self).wf(),
            final(self).map() == old(self).map().union_prefer_right(other.map()),
    {
        let ghost om = other.map();
        proof {
            other.lemma_map();
            other.lemma_no_dup();
        }
        let mut rest = other.entries;
        while rest.len() > 0
            invariant
                self.wf(),
                rest@.len() <= other.entries@.len(),
                forall|i: int| 0 <= i < rest@.len() ==> #[trigger] rest@[i] == other.entries@[i],
                other.wf(),
                om == other.map(),
                forall|i: int|
                    0 <= i < other.keys().len() ==> #[trigger] om.contains_key(other.keys()[i])
                        && om[other.keys()[i]] == other.values()[i],
                forall|k: K::V| #[trigger]
                    om.contains_key(k) ==> exists|i: int|
                        0 <= i < other.keys().len() && other.keys()[i] == k,
                other.keys().no_duplicates(),
                self.map() == old(self).map().union_prefer_right(
                    om.restrict(Set::new(|k: K::V| exists|i: int|
                        rest@.len() <= i < other.keys().len() && other.keys()[i] == k)),
                ),
            decreases rest.len(),
        {
            let ghost n = rest@.len();
            let e = rest.pop().unwrap();
            let ghost idx = (n - 1) as int;
            assert(e == other.entries@[idx]);
            assert(other.keys()[idx] == e.0@);
            assert(other.values()[idx] == e.1);
            let ghost before = self.map();
            self.insert(e.0, e.1);
            proof {
                let s_old = Set::new(|k: K::V| exists|i: int|
                    n <= i < other.keys().len() && other.keys()[i] == k);
                let s_new = Set::new(|k: K::V| exists|i: int|
                    rest@.len() <= i < other.keys().len() && other.keys()[i] == k);
                assert forall|k: K::V| s_new.contains(k) <==> s_old.contains(k) || k == other.keys()[idx] by {
                    if s_new.contains(k) {
                        let i = choose|i: int| rest@.len() <= i < other.keys().len() && other.keys()[i] == k;
                        if i != idx {
                            assert(s_old.contains(k));
                        }
                    }
                    if k == other.keys()[idx] {
                        assert(rest@.len() <= idx < other.keys().len() && other.keys()[idx] == k);
                    }
                }
                assert(!s_old.contains(other.keys()[idx])) by {
                    if s_old.contains(other.keys()[idx]) {
                        let i = choose|i: int| n <= i < other.keys().len() && other.keys()[i] == other.keys()[idx];
                    }
                }
                assert(self.map() =~= old(self).map().union_prefer_right(om.restrict(s_new)));
            }
        }
        proof {
            let s_all = Set::new(|k: K::V| exists|i: int|
                0 <= i < other.keys().len() && other.keys()[i] == k);
            assert(om.restrict(s_all) =~= om);
        }
    }
}

} // verus!
