//! Maps and sets keyed by text, which keep the order of insertion.

use vstd::prelude::*;

use crate::views::{entry_views, opt_view};

verus! {

/// A map from texts to values. No two entries have the same key; entries stand
/// in the order in which their keys first came in.
#[derive(Debug, PartialEq, Eq)]
pub struct StrMap<V> {
    keys: Vec<String>,
    values: Vec<V>,
}

/// The position of the entry with the key `k`.
pub open spec fn position<V>(s: Seq<(Seq<char>, V)>, k: Seq<char>) -> int {
    choose|i: int| 0 <= i < s.len() && #[trigger] s[i].0 == k
}

/// Whether an entry has the key `k`.
pub open spec fn has_key<V>(s: Seq<(Seq<char>, V)>, k: Seq<char>) -> bool {
    exists|i: int| 0 <= i < s.len() && #[trigger] s[i].0 == k
}

/// Whether no two entries have the same key.
pub open spec fn keys_distinct<V>(s: Seq<(Seq<char>, V)>) -> bool {
    forall|i: int, j: int| 0 <= i < j < s.len() ==> #[trigger] s[i].0 != #[trigger] s[j].0
}

/// The map that the entries `s` make.
pub open spec fn map_of<V>(s: Seq<(Seq<char>, V)>) -> Map<Seq<char>, V> {
    Map::new(|k: Seq<char>| has_key(s, k), |k: Seq<char>| s[position(s, k)].1)
}

/// The entries that keys and values make.
pub open spec fn pairs<V>(keys: Seq<String>, values: Seq<V>) -> Seq<(Seq<char>, V)> {
    Seq::new(keys.len(), |i: int| (keys[i]@, values[i]))
}

/// Whether no text occurs twice.
pub open spec fn no_repeats(keys: Seq<String>) -> bool {
    forall|i: int, j: int| 0 <= i < j < keys.len() ==> (#[trigger] keys[i])@ != (#[trigger] keys[j])@
}

/// Entries have distinct keys when no key occurs twice.
proof fn lemma_pairs<V>(keys: Seq<String>, values: Seq<V>)
    ensures
        no_repeats(keys) == keys_distinct(pairs(keys, values)),
{
    let s = pairs(keys, values);
    if no_repeats(keys) {
        assert forall|i: int, j: int| 0 <= i < j < s.len() implies #[trigger] s[i].0 != #[trigger] s[j].0 by {
            assert(keys[i]@ != keys[j]@);
        }
    }
    if keys_distinct(s) {
        assert forall|i: int, j: int| 0 <= i < j < keys.len() implies (#[trigger] keys[i])@ != (
        #[trigger] keys[j])@ by {
            assert(s[i].0 != s[j].0);
        }
    }
}

impl<V> StrMap<V> {
    /// The entries in order.
    pub closed spec fn seq(self) -> Seq<(Seq<char>, V)> {
        pairs(self.keys@, self.values@)
    }

    #[verifier::type_invariant]
    spec fn distinct(self) -> bool {
        no_repeats(self.keys@) && self.keys@.len() == self.values@.len()
    }
}

impl<V> View for StrMap<V> {
    type V = Map<Seq<char>, V>;

    open spec fn view(&self) -> Map<Seq<char>, V> {
        map_of(self.seq())
    }
}

/// An entry is found under its key.
pub proof fn lemma_entry<V>(s: Seq<(Seq<char>, V)>, i: int)
    requires
        keys_distinct(s),
        0 <= i < s.len(),
    ensures
        has_key(s, s[i].0),
        position(s, s[i].0) == i,
        map_of(s).contains_key(s[i].0),
        map_of(s)[s[i].0] == s[i].1,
{
    let p = position(s, s[i].0);
    assert(0 <= p < s.len() && s[p].0 == s[i].0);
    if p < i {
        assert(s[p].0 != s[i].0);
    } else if i < p {
        assert(s[i].0 != s[p].0);
    }
}

/// Changing the value of an entry changes the map at its key.
pub proof fn lemma_update<V>(s: Seq<(Seq<char>, V)>, i: int, v: V)
    requires
        keys_distinct(s),
        0 <= i < s.len(),
    ensures
        keys_distinct(s.update(i, (s[i].0, v))),
        map_of(s.update(i, (s[i].0, v))) == map_of(s).insert(s[i].0, v),
{
    let t = s.update(i, (s[i].0, v));
    assert forall|a: int, b: int| 0 <= a < b < t.len() implies #[trigger] t[a].0 != #[trigger] t[b].0 by {
        assert(s[a].0 != s[b].0);
    }
    assert forall|k: Seq<char>| has_key(t, k) == #[trigger] has_key(s, k) by {
        if has_key(t, k) {
            let j = choose|j: int| 0 <= j < t.len() && t[j].0 == k;
            assert(s[j].0 == k);
        }
        if has_key(s, k) {
            let j = choose|j: int| 0 <= j < s.len() && s[j].0 == k;
            assert(t[j].0 == k);
        }
    }
    lemma_entry(s, i);
    assert forall|k: Seq<char>| #[trigger] map_of(t).contains_key(k) implies map_of(t)[k] == map_of(
        s,
    ).insert(s[i].0, v)[k] by {
        let j = position(t, k);
        assert(0 <= j < t.len() && t[j].0 == k);
        lemma_entry(t, j);
        lemma_entry(s, j);
        assert(s[j].0 == k);
    }
    assert(map_of(t) =~= map_of(s).insert(s[i].0, v));
}

/// Adding an entry with a new key adds it to the map.
pub proof fn lemma_push<V>(s: Seq<(Seq<char>, V)>, k: Seq<char>, v: V)
    requires
        keys_distinct(s),
        !has_key(s, k),
    ensures
        keys_distinct(s.push((k, v))),
        map_of(s.push((k, v))) == map_of(s).insert(k, v),
{
    let t = s.push((k, v));
    assert forall|a: int, b: int| 0 <= a < b < t.len() implies #[trigger] t[a].0 != #[trigger] t[b].0 by {
        assert(s[a].0 != k);
        if b < s.len() {
            assert(s[a].0 != s[b].0);
        }
    }
    assert forall|q: Seq<char>| #[trigger] has_key(t, q) == (has_key(s, q) || q == k) by {
        if has_key(t, q) {
            let j = choose|j: int| 0 <= j < t.len() && t[j].0 == q;
            if j < s.len() {
                assert(s[j].0 == q);
            }
        }
        if has_key(s, q) {
            let j = choose|j: int| 0 <= j < s.len() && s[j].0 == q;
            assert(t[j].0 == q);
        }
        if q == k {
            assert(t[s.len() as int].0 == q);
        }
    }
    assert forall|q: Seq<char>| #[trigger] map_of(t).contains_key(q) implies map_of(t)[q] == map_of(
        s,
    ).insert(k, v)[q] by {
        let j = position(t, q);
        assert(0 <= j < t.len() && t[j].0 == q);
        lemma_entry(t, j);
        if j < s.len() {
            lemma_entry(s, j);
            assert(s[j].0 == q);
            assert(s[j].0 != k);
        }
    }
    assert(map_of(t) =~= map_of(s).insert(k, v));
}

/// Removing an entry removes its key from the map.
pub proof fn lemma_remove<V>(s: Seq<(Seq<char>, V)>, i: int)
    requires
        keys_distinct(s),
        0 <= i < s.len(),
    ensures
        keys_distinct(s.remove(i)),
        map_of(s.remove(i)) == map_of(s).remove(s[i].0),
{
    let t = s.remove(i);
    let k = s[i].0;
    assert forall|a: int, b: int| 0 <= a < b < t.len() implies #[trigger] t[a].0 != #[trigger] t[b].0 by {
        let x = if a < i { a } else { a + 1 };
        let y = if b < i { b } else { b + 1 };
        assert(s[x].0 != s[y].0);
    }
    assert forall|q: Seq<char>| #[trigger] has_key(t, q) == (has_key(s, q) && q != k) by {
        if has_key(t, q) {
            let j = choose|j: int| 0 <= j < t.len() && t[j].0 == q;
            let x = if j < i { j } else { j + 1 };
            assert(s[x].0 == q);
            if x < i {
                assert(s[x].0 != s[i].0);
            } else {
                assert(s[i].0 != s[x].0);
            }
        }
        if has_key(s, q) && q != k {
            let j = choose|j: int| 0 <= j < s.len() && s[j].0 == q;
            let y = if j < i { j } else { j - 1 };
            assert(t[y].0 == q);
        }
    }
    assert forall|q: Seq<char>| #[trigger] map_of(t).contains_key(q) implies map_of(t)[q] == map_of(
        s,
    ).remove(k)[q] by {
        let j = position(t, q);
        assert(0 <= j < t.len() && t[j].0 == q);
        lemma_entry(t, j);
        let x = if j < i { j } else { j + 1 };
        lemma_entry(s, x);
        assert(s[x].0 == q);
    }
    assert(map_of(t) =~= map_of(s).remove(k));
}

/// The map has as many keys as there are entries.
pub proof fn lemma_len<V>(s: Seq<(Seq<char>, V)>)
    requires
        keys_distinct(s),
    ensures
        map_of(s).dom().finite(),
        map_of(s).dom().len() == s.len(),
    decreases s.len(),
{
    if s.len() == 0 {
        assert(map_of(s).dom() =~= Set::empty());
    } else {
        let h = s.drop_last();
        assert(keys_distinct(h)) by {
            assert forall|a: int, b: int| 0 <= a < b < h.len() implies #[trigger] h[a].0 != #[trigger] h[b].0 by {
                assert(s[a].0 != s[b].0);
            }
        }
        lemma_len(h);
        assert(!has_key(h, s.last().0)) by {
            if has_key(h, s.last().0) {
                let j = choose|j: int| 0 <= j < h.len() && h[j].0 == s.last().0;
                assert(s[j].0 != s[s.len() - 1].0);
            }
        }
        lemma_push(h, s.last().0, s.last().1);
        assert(h.push((s.last().0, s.last().1)) =~= s);
        assert(map_of(s).dom() =~= map_of(h).dom().insert(s.last().0));
    }
}

/// The entries with `v` under `k`: in place where there is an entry, else at
/// the end.
pub open spec fn put<V>(s: Seq<(Seq<char>, V)>, k: Seq<char>, v: V) -> Seq<(Seq<char>, V)> {
    if has_key(s, k) {
        s.update(position(s, k), (k, v))
    } else {
        s.push((k, v))
    }
}

/// The entries without the one under `k`.
pub open spec fn del<V>(s: Seq<(Seq<char>, V)>, k: Seq<char>) -> Seq<(Seq<char>, V)> {
    if has_key(s, k) {
        s.remove(position(s, k))
    } else {
        s
    }
}

/// The value under `k`.
pub open spec fn lookup<V>(s: Seq<(Seq<char>, V)>, k: Seq<char>) -> Option<V> {
    if has_key(s, k) {
        Some(s[position(s, k)].1)
    } else {
        None
    }
}

/// The keys of the entries.
pub open spec fn keys_of<V>(s: Seq<(Seq<char>, V)>) -> Seq<Seq<char>> {
    s.map_values(|e: (Seq<char>, V)| e.0)
}

impl<V> StrMap<V> {
    /// An empty map.
    pub fn new() -> (r: StrMap<V>)
        ensures
            r.seq() == Seq::<(Seq<char>, V)>::empty(),
            r@ == Map::<Seq<char>, V>::empty(),
    {
        let keys: Vec<String> = Vec::new();
        let values: Vec<V> = Vec::new();
        assert(pairs(keys@, values@) =~= Seq::<(Seq<char>, V)>::empty());
        let r = StrMap { keys, values };
        assert(r@ =~= Map::<Seq<char>, V>::empty());
        r
    }

    /// How many entries there are.
    pub fn len(&self) -> (n: usize)
        ensures
            n == self.seq().len(),
            n == self@.dom().len(),
            self@.dom().finite(),
            keys_distinct(self.seq()),
            forall|i: int|
                0 <= i < self.seq().len() ==> self@.contains_key((#[trigger] self.seq()[i]).0)
                    && self@[self.seq()[i].0] == self.seq()[i].1,
    {
        proof {
            use_type_invariant(self);
            lemma_pairs(self.keys@, self.values@);
            lemma_len(self.seq());
            assert forall|i: int| 0 <= i < self.seq().len() implies self@.contains_key(
                (#[trigger] self.seq()[i]).0,
            ) && self@[self.seq()[i].0] == self.seq()[i].1 by {
                lemma_entry(self.seq(), i);
            }
        }
        self.keys.len()
    }

    /// Whether there is no entry.
    pub fn is_empty(&self) -> (r: bool)
        ensures
            r == (self.seq().len() == 0),
            r == (self@.dom().len() == 0),
    {
        self.len() == 0
    }

    /// The key of the entry at `i`.
    pub fn key_at(&self, i: usize) -> (k: &String)
        requires
            i < self.seq().len(),
        ensures
            k@ == self.seq()[i as int].0,
    {
        &self.keys[i]
    }

    /// The value of the entry at `i`.
    pub fn value_at(&self, i: usize) -> (v: &V)
        requires
            i < self.seq().len(),
        ensures
            *v == self.seq()[i as int].1,
            self@.contains_key(self.seq()[i as int].0),
            self@[self.seq()[i as int].0] == *v,
    {
        proof {
            use_type_invariant(self);
            lemma_pairs(self.keys@, self.values@);
            lemma_entry(self.seq(), i as int);
        }
        &self.values[i]
    }

    /// Where the entry with the key `key` stands.
    pub fn find(&self, key: &str) -> (r: Option<usize>)
        ensures
            match r {
                Some(i) => i < self.seq().len() && self.seq()[i as int].0 == key@
                    && self@.contains_key(key@) && self@[key@] == self.seq()[i as int].1,
                None => !self@.contains_key(key@),
            },
    {
        proof {
            use_type_invariant(self);
            lemma_pairs(self.keys@, self.values@);
        }
        let mut i: usize = 0;
        while i < self.keys.len()
            invariant
                keys_distinct(self.seq()),
                i <= self.keys@.len(),
                forall|j: int| 0 <= j < i ==> (#[trigger] self.seq()[j]).0 != key@,
            decreases self.keys@.len() - i,
        {
            if crate::text::str_eq(self.keys[i].as_str(), key) {
                proof {
                    lemma_entry(self.seq(), i as int);
                }
                return Some(i);
            }
            assert(self.seq()[i as int].0 != key@);
            i += 1;
        }
        None
    }

    /// Whether there is an entry with the key `key`.
    pub fn contains_key(&self, key: &str) -> (r: bool)
        ensures
            r == self@.contains_key(key@),
            r == has_key(self.seq(), key@),
    {
        self.find(key).is_some()
    }

    /// The value under `key`.
    pub fn get(&self, key: &str) -> (r: Option<&V>)
        ensures
            match r {
                Some(v) => self@.contains_key(key@) && *v == self@[key@] && lookup(
                    self.seq(),
                    key@,
                ) == Some(*v),
                None => !self@.contains_key(key@) && lookup(self.seq(), key@) is None,
            },
            keys_distinct(self.seq()),
    {
        proof {
            use_type_invariant(self);
            lemma_pairs(self.keys@, self.values@);
        }
        match self.find(key) {
            Some(i) => Some(&self.values[i]),
            None => None,
        }
    }

    /// Puts `value` under `key`, in place of what is there.
    pub fn insert(&mut self, key: String, value: V)
        ensures
            final(self)@ == old(self)@.insert(key@, value),
            final(self).seq() == put(old(self).seq(), key@, value),
            keys_distinct(old(self).seq()),
            keys_distinct(final(self).seq()),
    {
        proof {
            use_type_invariant(&*self);
            lemma_pairs(self.keys@, self.values@);
        }
        let ghost s = self.seq();
        match self.find(key.as_str()) {
            Some(i) => {
                proof {
                    lemma_entry(s, i as int);
                    lemma_update(s, i as int, value);
                    assert(pairs(self.keys@, self.values@.update(i as int, value)) =~= s.update(
                        i as int,
                        (key@, value),
                    ));
                }
                let mut whole = StrMap::new();
                std::mem::swap(&mut whole, self);
                let StrMap { keys, mut values } = whole;
                values.set(i, value);
                proof {
                    lemma_pairs(keys@, values@);
                }
                *self = StrMap { keys, values };
            },
            None => {
                proof {
                    lemma_push(s, key@, value);
                }
                let mut whole = StrMap::new();
                std::mem::swap(&mut whole, self);
                let StrMap { mut keys, mut values } = whole;
                keys.push(key);
                values.push(value);
                assert(pairs(keys@, values@) =~= s.push((key@, value)));
                proof {
                    lemma_pairs(keys@, values@);
                }
                *self = StrMap { keys, values };
            },
        }
    }

    /// Takes the entry at `i` out.
    pub fn remove_at(&mut self, i: usize) -> (r: V)
        requires
            i < old(self).seq().len(),
        ensures
            r == old(self).seq()[i as int].1,
            final(self).seq() == old(self).seq().remove(i as int),
            final(self)@ == old(self)@.remove(old(self).seq()[i as int].0),
    {
        proof {
            use_type_invariant(&*self);
            lemma_pairs(self.keys@, self.values@);
        }
        let ghost s = self.seq();
        proof {
            lemma_remove(s, i as int);
        }
        let mut whole = StrMap::new();
        std::mem::swap(&mut whole, self);
        let StrMap { mut keys, mut values } = whole;
        let _ = keys.remove(i);
        let v = values.remove(i);
        assert(pairs(keys@, values@) =~= s.remove(i as int));
        proof {
            lemma_pairs(keys@, values@);
        }
        *self = StrMap { keys, values };
        v
    }

    /// Takes the entry with the key `key` out.
    pub fn remove(&mut self, key: &str) -> (r: Option<V>)
        ensures
            final(self)@ == old(self)@.remove(key@),
            match r {
                Some(v) => old(self)@.contains_key(key@) && v == old(self)@[key@],
                None => !old(self)@.contains_key(key@),
            },
            r == lookup(old(self).seq(), key@),
            final(self).seq() == del(old(self).seq(), key@),
            keys_distinct(old(self).seq()),
            keys_distinct(final(self).seq()),
    {
        proof {
            use_type_invariant(&*self);
            lemma_pairs(self.keys@, self.values@);
        }
        let ghost s = self.seq();
        match self.find(key) {
            Some(i) => {
                proof {
                    lemma_entry(s, i as int);
                    lemma_remove(s, i as int);
                }
                let mut whole = StrMap::new();
                std::mem::swap(&mut whole, self);
                let StrMap { mut keys, mut values } = whole;
                let _ = keys.remove(i);
                let v = values.remove(i);
                assert(pairs(keys@, values@) =~= s.remove(i as int));
                proof {
                    lemma_pairs(keys@, values@);
                }
                *self = StrMap { keys, values };
                Some(v)
            },
            None => {
                assert(self@ =~= self@.remove(key@));
                None
            },
        }
    }
}

impl<V> StrMap<V> {
    /// The value of the entry at `i`, to be changed in place.
    pub fn value_at_mut(&mut self, i: usize) -> (v: &mut V)
        requires
            i < old(self).seq().len(),
        ensures
            *v == old(self).seq()[i as int].1,
            final(self).seq() == old(self).seq().update(
                i as int,
                (old(self).seq()[i as int].0, *final(v)),
            ),
            final(self)@ == old(self)@.insert(old(self).seq()[i as int].0, *final(v)),
            keys_distinct(old(self).seq()),
    {
        proof {
            use_type_invariant(&*self);
            lemma_pairs(self.keys@, self.values@);
        }
        let ghost s = self.seq();
        let ghost keys = self.keys@;
        let ghost values = self.values@;
        let r = &mut self.values[i];
        proof {
            lemma_entry(s, i as int);
            lemma_update(s, i as int, *final(r));
            assert(pairs(keys, values.update(i as int, *final(r))) =~= s.update(
                i as int,
                (s[i as int].0, *final(r)),
            ));
        }
        r
    }

    /// The value under `key`, to be changed in place.
    pub fn get_mut(&mut self, key: &str) -> (r: Option<&mut V>)
        ensures
            match r {
                Some(v) => old(self)@.contains_key(key@) && *v == old(self)@[key@] && final(self)@
                    == old(self)@.insert(key@, *final(v)) && lookup(old(self).seq(), key@) == Some(*v)
                    && final(self).seq() == put(old(self).seq(), key@, *final(v)),
                None => !old(self)@.contains_key(key@) && lookup(old(self).seq(), key@) is None
                    && *final(self) == *old(self),
            },
            keys_distinct(old(self).seq()),
    {
        proof {
            use_type_invariant(&*self);
            lemma_pairs(self.keys@, self.values@);
        }
        match self.find(key) {
            Some(i) => {
                proof {
                    lemma_entry(self.seq(), i as int);
                }
                Some(self.value_at_mut(i))
            },
            None => None,
        }
    }
}

impl<V: Clone> Clone for StrMap<V> {
    fn clone(&self) -> (r: Self)
        ensures
            r.seq().len() == self.seq().len(),
            forall|i: int|
                0 <= i < r.seq().len() ==> (#[trigger] r.seq()[i]).0 == self.seq()[i].0 && cloned(
                    self.seq()[i].1,
                    r.seq()[i].1,
                ),
    {
        proof {
            use_type_invariant(self);
            lemma_pairs(self.keys@, self.values@);
        }
        let mut keys: Vec<String> = Vec::new();
        let mut values: Vec<V> = Vec::new();
        let mut i: usize = 0;
        while i < self.keys.len()
            invariant
                self.keys@.len() == self.values@.len(),
                i <= self.keys@.len(),
                keys@ == self.keys@.take(i as int),
                values@.len() == i,
                forall|j: int| 0 <= j < i ==> cloned(self.values@[j], #[trigger] values@[j]),
            decreases self.keys@.len() - i,
        {
            keys.push(self.keys[i].clone());
            values.push(self.values[i].clone());
            assert(keys@ =~= self.keys@.take(i as int + 1));
            i += 1;
        }
        assert(keys@ =~= self.keys@);
        StrMap { keys, values }
    }
}

impl<V> Default for StrMap<V> {
    fn default() -> (r: Self)
        ensures
            r.seq() == Seq::<(Seq<char>, V)>::empty(),
            r@ == Map::<Seq<char>, V>::empty(),
    {
        StrMap::new()
    }
}

/// A set of texts, which keeps the order of insertion.
#[derive(Debug, PartialEq, Eq)]
pub struct StrSet {
    map: StrMap<()>,
}

impl View for StrSet {
    type V = Set<Seq<char>>;

    closed spec fn view(&self) -> Set<Seq<char>> {
        self.map@.dom()
    }
}

impl StrSet {
    /// The texts in order.
    pub closed spec fn seq(self) -> Seq<Seq<char>> {
        keys_of(self.map.seq())
    }

    /// An empty set.
    pub fn new() -> (r: StrSet)
        ensures
            r@ == Set::<Seq<char>>::empty(),
            r.seq() == Seq::<Seq<char>>::empty(),
    {
        let r = StrSet { map: StrMap::new() };
        assert(r@ =~= Set::<Seq<char>>::empty());
        assert(r.seq() =~= Seq::<Seq<char>>::empty());
        r
    }

    /// How many texts there are.
    pub fn len(&self) -> (n: usize)
        ensures
            n == self@.len(),
            n == self.seq().len(),
            self@.finite(),
            forall|i: int| 0 <= i < self.seq().len() ==> self@.contains(#[trigger] self.seq()[i]),
    {
        let n: usize = self.map.len();
        assert forall|i: int| 0 <= i < self.seq().len() implies self@.contains(
            #[trigger] self.seq()[i],
        ) by {
            assert(self.seq()[i] == self.map.seq()[i].0);
        }
        n
    }

    /// Whether there is no text.
    pub fn is_empty(&self) -> (r: bool)
        ensures
            r == (self@.len() == 0),
            r == (self.seq().len() == 0),
            r == (self@ == Set::<Seq<char>>::empty()),
    {
        let n: usize = self.len();
        proof {
            if n == 0 {
                assert(self@ =~= Set::<Seq<char>>::empty());
            }
        }
        n == 0
    }

    /// The text at `i`.
    pub fn at(&self, i: usize) -> (k: &String)
        requires
            i < self.seq().len(),
        ensures
            k@ == self.seq()[i as int],
    {
        self.map.key_at(i)
    }

    /// Whether `key` is in the set.
    pub fn contains(&self, key: &str) -> (r: bool)
        ensures
            r == self@.contains(key@),
            r == self.seq().contains(key@),
    {
        let r = self.map.contains_key(key);
        proof {
            let s = self.map.seq();
            if has_key(s, key@) {
                let i = choose|i: int| 0 <= i < s.len() && #[trigger] s[i].0 == key@;
                assert(self.seq()[i] == key@);
            }
            if self.seq().contains(key@) {
                let i = choose|i: int| 0 <= i < self.seq().len() && self.seq()[i] == key@;
                assert(s[i].0 == key@);
            }
        }
        r
    }

    /// Adds `key`; the result says whether it was new.
    pub fn insert(&mut self, key: String) -> (r: bool)
        ensures
            final(self)@ == old(self)@.insert(key@),
            r == !old(self)@.contains(key@),
    {
        let known = self.map.contains_key(key.as_str());
        let ghost before = self.map@;
        self.map.insert(key, ());
        assert(self.map@.dom() =~= before.dom().insert(key@));
        !known
    }
}

impl<V> StrMap<V> {
    /// The keys, in the order of the entries.
    pub fn keys(&self) -> (r: Vec<String>)
        ensures
            crate::text::views(r@) == keys_of(self.seq()),
    {
        let r = crate::views::copy_texts(&self.keys);
        assert(crate::text::views(r@) =~= keys_of(self.seq()));
        r
    }

    /// The set of the keys, in the order of the entries.
    pub fn key_set(&self) -> (r: StrSet)
        ensures
            r@ == self@.dom(),
            r.seq() == keys_of(self.seq()),
    {
        let mut out: StrMap<()> = StrMap::new();
        let n: usize = self.len();
        let mut i: usize = 0;
        assert(keys_of(out.seq()) =~= keys_of(self.seq()).take(0));
        while i < n
            invariant
                i <= n,
                n == self.seq().len(),
                keys_distinct(self.seq()),
                keys_of(out.seq()) == keys_of(self.seq()).take(i as int),
            decreases n - i,
        {
            let ghost before = out.seq();
            proof {
                lemma_new_key(self.seq(), i as int, before);
            }
            let key = self.key_at(i).clone();
            out.insert(key, ());
            proof {
                assert(keys_of(out.seq()) =~= keys_of(before).push(key@));
                assert(keys_of(self.seq()).take(i as int + 1) =~= keys_of(self.seq()).take(
                    i as int,
                ).push(key@));
            }
            i += 1;
        }
        proof {
            assert(keys_of(self.seq()).take(i as int) =~= keys_of(self.seq()));
            lemma_same_keys(out.seq(), self.seq());
        }
        StrSet { map: out }
    }
}

/// Entries with the same keys make maps with the same keys.
proof fn lemma_same_keys<V, W>(s: Seq<(Seq<char>, V)>, t: Seq<(Seq<char>, W)>)
    requires
        keys_of(s) == keys_of(t),
    ensures
        map_of(s).dom() == map_of(t).dom(),
{
    assert(s.len() == keys_of(s).len() && t.len() == keys_of(t).len());
    assert forall|k: Seq<char>| #[trigger] has_key(s, k) == has_key(t, k) by {
        if has_key(s, k) {
            let i = choose|i: int| 0 <= i < s.len() && #[trigger] s[i].0 == k;
            assert(keys_of(t)[i] == keys_of(s)[i]);
            assert(t[i].0 == k);
        }
        if has_key(t, k) {
            let i = choose|i: int| 0 <= i < t.len() && #[trigger] t[i].0 == k;
            assert(keys_of(t)[i] == keys_of(s)[i]);
            assert(s[i].0 == k);
        }
    }
    assert(map_of(s).dom() =~= map_of(t).dom());
}

/// A key further on in a list is not among those before it.
pub proof fn lemma_new_key<V, W>(s: Seq<(Seq<char>, V)>, i: int, t: Seq<(Seq<char>, W)>)
    requires
        keys_distinct(s),
        0 <= i < s.len(),
        keys_of(t) == keys_of(s).take(i),
    ensures
        !has_key(t, s[i].0),
{
    if has_key(t, s[i].0) {
        let j = choose|j: int| 0 <= j < t.len() && #[trigger] t[j].0 == s[i].0;
        assert(keys_of(t).len() == t.len());
        assert(keys_of(t)[j] == t[j].0);
        assert(keys_of(s).take(i)[j] == s[j].0);
        assert(s[j].0 != s[i].0);
    }
}

/// Entries with the views of their values have the same keys at the same
/// places.
pub proof fn lemma_viewed_keys<V: View>(s: Seq<(Seq<char>, V)>, k: Seq<char>)
    requires
        keys_distinct(s),
    ensures
        keys_distinct(entry_views(s)),
        has_key(entry_views(s), k) == has_key(s, k),
        has_key(s, k) ==> position(entry_views(s), k) == position(s, k),
        lookup(entry_views(s), k) == opt_view(lookup(s, k)),
{
    let t = entry_views(s);
    assert forall|i: int, j: int| 0 <= i < j < t.len() implies #[trigger] t[i].0 != #[trigger] t[j].0 by {
        assert(s[i].0 != s[j].0);
    }
    if has_key(s, k) {
        let i = choose|i: int| 0 <= i < s.len() && #[trigger] s[i].0 == k;
        assert(t[i].0 == k);
        lemma_entry(s, i);
        lemma_entry(t, i);
    }
    if has_key(t, k) {
        let i = choose|i: int| 0 <= i < t.len() && #[trigger] t[i].0 == k;
        assert(s[i].0 == k);
    }
}

/// Putting back what is there changes nothing.
pub proof fn lemma_put_same<V>(s: Seq<(Seq<char>, V)>, k: Seq<char>)
    requires
        has_key(s, k),
    ensures
        put(s, k, lookup(s, k)->Some_0) == s,
{
    let i = position(s, k);
    assert(0 <= i < s.len() && s[i].0 == k);
    assert(put(s, k, lookup(s, k)->Some_0) =~= s);
}

/// Putting a value and viewing, in either order.
pub proof fn lemma_viewed_put<V: View>(s: Seq<(Seq<char>, V)>, k: Seq<char>, v: V)
    requires
        keys_distinct(s),
    ensures
        entry_views(put(s, k, v)) == put(entry_views(s), k, v@),
{
    lemma_viewed_keys(s, k);
    if has_key(s, k) {
        let i = choose|i: int| 0 <= i < s.len() && #[trigger] s[i].0 == k;
        lemma_entry(s, i);
    }
    assert(entry_views(put(s, k, v)) =~= put(entry_views(s), k, v@));
}

/// Removing a value and viewing, in either order.
pub proof fn lemma_viewed_del<V: View>(s: Seq<(Seq<char>, V)>, k: Seq<char>)
    requires
        keys_distinct(s),
    ensures
        entry_views(del(s, k)) == del(entry_views(s), k),
{
    lemma_viewed_keys(s, k);
    if has_key(s, k) {
        let i = choose|i: int| 0 <= i < s.len() && #[trigger] s[i].0 == k;
        lemma_entry(s, i);
    }
    assert(entry_views(del(s, k)) =~= del(entry_views(s), k));
}

/// After putting a value it is found under its key, and all else as before.
pub proof fn lemma_put_facts<V>(s: Seq<(Seq<char>, V)>, k: Seq<char>, v: V)
    requires
        keys_distinct(s),
    ensures
        keys_distinct(put(s, k, v)),
        lookup(put(s, k, v), k) == Some(v),
        forall|o: Seq<char>| o != k ==> #[trigger] lookup(put(s, k, v), o) == lookup(s, o),
        forall|o: Seq<char>|
            o != k ==> #[trigger] has_key(put(s, k, v), o) == has_key(s, o),
        put(s, k, v).len() == (if has_key(s, k) {
            s.len()
        } else {
            s.len() + 1
        }),
        forall|i: int|
            0 <= i < put(s, k, v).len() ==> (#[trigger] put(s, k, v)[i]) == (k, v) || (i < s.len()
                && put(s, k, v)[i] == s[i]),
{
    let t = put(s, k, v);
    if has_key(s, k) {
        let i = position(s, k);
        assert(0 <= i < s.len() && s[i].0 == k);
        assert(t[i].0 == k);
        lemma_entry(t, i);
    } else {
        assert(t[s.len() as int].0 == k);
        lemma_entry(t, s.len() as int);
    }
    assert forall|o: Seq<char>| o != k implies #[trigger] has_key(t, o) == has_key(s, o) by {
        if has_key(s, o) {
            let i = choose|i: int| 0 <= i < s.len() && #[trigger] s[i].0 == o;
            assert(t[i].0 == o);
        }
        if has_key(t, o) {
            let i = choose|i: int| 0 <= i < t.len() && #[trigger] t[i].0 == o;
            assert(s[i].0 == o);
        }
    }
    assert forall|o: Seq<char>| o != k implies #[trigger] lookup(t, o) == lookup(s, o) by {
        if has_key(s, o) {
            let i = choose|i: int| 0 <= i < s.len() && #[trigger] s[i].0 == o;
            assert(t[i] == s[i]);
            lemma_entry(s, i);
            lemma_entry(t, i);
        }
    }
}

/// After taking a key out nothing is found under it, and all else as before.
pub proof fn lemma_del_facts<V>(s: Seq<(Seq<char>, V)>, k: Seq<char>)
    requires
        keys_distinct(s),
    ensures
        keys_distinct(del(s, k)),
        lookup(del(s, k), k) is None,
        forall|o: Seq<char>| o != k ==> #[trigger] lookup(del(s, k), o) == lookup(s, o),
{
    let t = del(s, k);
    if has_key(s, k) {
        let at = position(s, k);
        assert(0 <= at < s.len() && s[at].0 == k);
        lemma_entry(s, at);
        assert forall|i: int, j: int| 0 <= i < j < t.len() implies #[trigger] t[i].0 != #[trigger] t[j].0 by {
            let x = if i < at { i } else { i + 1 };
            let y = if j < at { j } else { j + 1 };
            assert(s[x].0 != s[y].0);
        }
        assert(!has_key(t, k)) by {
            if has_key(t, k) {
                let i = choose|i: int| 0 <= i < t.len() && #[trigger] t[i].0 == k;
                let x = if i < at { i } else { i + 1 };
                assert(s[x].0 == k);
            }
        }
        assert forall|o: Seq<char>| o != k implies #[trigger] lookup(t, o) == lookup(s, o) by {
            if has_key(s, o) {
                let i = choose|i: int| 0 <= i < s.len() && #[trigger] s[i].0 == o;
                let y = if i < at { i } else { i - 1 };
                assert(t[y] == s[i]);
                lemma_entry(s, i);
                lemma_entry(t, y);
            }
            if has_key(t, o) {
                let i = choose|i: int| 0 <= i < t.len() && #[trigger] t[i].0 == o;
                let x = if i < at { i } else { i + 1 };
                assert(s[x].0 == o);
            }
        }
    }
}

} // verus!
