//! A map keyed by strings, kept in ascending key order.
use vstd::prelude::*;
use crate::text::{chars_less, chars_of, lemma_seq_lt_total, lemma_seq_lt_transitive, seq_lt};

verus! {

/// A map from strings to values. Its keys are kept in ascending order, so walking it
/// visits the keys in that order.
pub struct StrMap<V> {
    entries: Vec<(String, V)>,
}

/// The keys of `s` are in strictly ascending order.
pub open spec fn ascending<V>(s: Seq<(String, V)>) -> bool {
    forall|i: int, j: int| 0 <= i < j < s.len() ==> seq_lt((#[trigger] s[i]).0@, (#[trigger] s[j]).0@)
}

/// Some entry of `s` has key `k`.
pub open spec fn has_key<V>(s: Seq<(String, V)>, k: Seq<char>) -> bool {
    exists|i: int| 0 <= i < s.len() && (#[trigger] s[i]).0@ == k
}

/// The map that the entries `s` describe.
pub open spec fn map_of<V>(s: Seq<(String, V)>) -> Map<Seq<char>, V> {
    Map::new(
        |k: Seq<char>| has_key(s, k),
        |k: Seq<char>| s[choose|i: int| 0 <= i < s.len() && (#[trigger] s[i]).0@ == k].1,
    )
}

/// The keys of `s`, in order.
pub open spec fn keys_of<V>(s: Seq<(String, V)>) -> Seq<Seq<char>> {
    s.map_values(|e: (String, V)| e.0@)
}

proof fn lemma_ascending_unique<V>(s: Seq<(String, V)>, i: int, j: int)
    requires
        ascending(s),
        0 <= i < s.len(),
        0 <= j < s.len(),
        s[i].0@ == s[j].0@,
    ensures
        i == j,
{
    if i < j {
        lemma_seq_lt_total(s[i].0@, s[j].0@);
    } else if j < i {
        lemma_seq_lt_total(s[j].0@, s[i].0@);
    }
}

proof fn lemma_map_of_at<V>(s: Seq<(String, V)>, i: int)
    requires
        ascending(s),
        0 <= i < s.len(),
    ensures
        map_of(s).contains_key(s[i].0@),
        map_of(s)[s[i].0@] == s[i].1,
{
    let k = s[i].0@;
    assert(has_key(s, k));
    let c = choose|c: int| 0 <= c < s.len() && (#[trigger] s[c]).0@ == k;
    lemma_ascending_unique(s, i, c);
}

proof fn lemma_drop_last_map<V>(s: Seq<(String, V)>)
    requires
        ascending(s),
        s.len() > 0,
    ensures
        ascending(s.drop_last()),
        map_of(s.drop_last()) == map_of(s).remove(s.last().0@),
{
    let d = s.drop_last();
    let last = s.len() - 1;
    assert forall|a: int, b: int| 0 <= a < b < d.len() implies seq_lt((#[trigger] d[a]).0@, (#[trigger] d[b]).0@) by {
        assert(seq_lt(s[a].0@, s[b].0@));
    }
    assert(map_of(d) =~= map_of(s).remove(s.last().0@)) by {
        assert forall|k: Seq<char>| #[trigger] map_of(d).contains_key(k) <==> map_of(s).remove(s.last().0@).contains_key(k) by {
            if has_key(d, k) {
                let c = choose|c: int| 0 <= c < d.len() && (#[trigger] d[c]).0@ == k;
                assert(s[c].0@ == k);
                if k == s.last().0@ {
                    lemma_ascending_unique(s, c, last);
                }
            }
            if has_key(s, k) && k != s.last().0@ {
                let c = choose|c: int| 0 <= c < s.len() && (#[trigger] s[c]).0@ == k;
                assert(d[c].0@ == k);
            }
        }
        assert forall|k: Seq<char>| #[trigger] map_of(d).contains_key(k) implies map_of(d)[k] == map_of(s).remove(s.last().0@)[k] by {
            let c = choose|c: int| 0 <= c < d.len() && (#[trigger] d[c]).0@ == k;
            lemma_map_of_at(d, c);
            lemma_map_of_at(s, c);
        }
    }
}

/// Entries in ascending key order are determined by the map they describe: two such
/// sequences with the same map have the same keys and the same values, in the same
/// places.
pub proof fn lemma_entries_determined<V>(s: Seq<(String, V)>, t: Seq<(String, V)>)
    requires
        ascending(s),
        ascending(t),
        map_of(s) == map_of(t),
    ensures
        s.len() == t.len(),
        forall|i: int| 0 <= i < s.len() ==> (#[trigger] s[i]).0@ == t[i].0@ && s[i].1 == t[i].1,
    decreases s.len(),
{
    if s.len() == 0 {
        if t.len() > 0 {
            lemma_map_of_at(t, 0);
        }
    } else if t.len() == 0 {
        lemma_map_of_at(s, 0);
    } else {
        let ls = s.len() - 1;
        let lt = t.len() - 1;
        let ks = s[ls].0@;
        let kt = t[lt].0@;
        lemma_map_of_at(s, ls);
        lemma_map_of_at(t, lt);
        if ks != kt {
            let j = choose|j: int| 0 <= j < t.len() && (#[trigger] t[j]).0@ == ks;
            let i = choose|i: int| 0 <= i < s.len() && (#[trigger] s[i]).0@ == kt;
            assert(seq_lt(t[j].0@, t[lt].0@));
            assert(seq_lt(s[i].0@, s[ls].0@));
            lemma_seq_lt_total(ks, kt);
        }
        lemma_drop_last_map(s);
        lemma_drop_last_map(t);
        lemma_entries_determined(s.drop_last(), t.drop_last());
        assert forall|i: int| 0 <= i < s.len() implies (#[trigger] s[i]).0@ == t[i].0@ && s[i].1 == t[i].1 by {
            if i < ls {
                assert(s.drop_last()[i] == s[i]);
                assert(t.drop_last()[i] == t[i]);
            }
        }
    }
}

impl<V> StrMap<V> {
    /// The keys and values, keys ascending.
    pub closed spec fn entries(&self) -> Seq<(String, V)> {
        self.entries@
    }

    /// The keys, ascending.
    pub open spec fn keys(&self) -> Seq<Seq<char>> {
        keys_of(self.entries())
    }

    /// The map from keys to values.
    pub open spec fn view(&self) -> Map<Seq<char>, V> {
        map_of(self.entries())
    }

    /// The entries are in strictly ascending key order.
    pub open spec fn wf(&self) -> bool {
        ascending(self.entries())
    }

    /// The empty map.
    pub fn new() -> (r: Self)
        ensures
            r.wf(),
            r@ == Map::<Seq<char>, V>::empty(),
            r.entries() == Seq::<(String, V)>::empty(),
    {
        let r = StrMap { entries: Vec::new() };
        assert(r@ =~= Map::<Seq<char>, V>::empty());
        r
    }

    /// The number of entries.
    pub fn len(&self) -> (r: usize)
        ensures
            r == self.entries().len(),
    {
        self.entries.len()
    }

    /// The key of entry `i`, in ascending key order.
    pub fn key_at(&self, i: usize) -> (r: &String)
        requires
            i < self.entries().len(),
        ensures
            *r == self.entries()[i as int].0,
    {
        &self.entries[i].0
    }

    /// The value of entry `i`, in ascending key order.
    pub fn value_at(&self, i: usize) -> (r: &V)
        requires
            i < self.entries().len(),
        ensures
            *r == self.entries()[i as int].1,
    {
        &self.entries[i].1
    }

    /// The value of entry `i`, to change in place; its key stays.
    pub fn value_at_mut(&mut self, i: usize) -> (r: &mut V)
        requires
            i < old(self).entries().len(),
        ensures
            *r == old(self).entries()[i as int].1,
            final(self).entries() == old(self).entries().update(
                i as int,
                (old(self).entries()[i as int].0, *final(r)),
            ),
    {
        let entry = &mut self.entries[i];
        &mut entry.1
    }

    /// Where key `k` would stand: the first entry whose key is not below `k`.
    fn position(&self, k: &Vec<char>) -> (r: usize)
        requires
            self.wf(),
        ensures
            r <= self.entries().len(),
            forall|i: int| 0 <= i < r ==> seq_lt((#[trigger] self.entries()[i]).0@, k@),
            r < self.entries().len() ==> !seq_lt(self.entries()[r as int].0@, k@),
    {
        let n = self.entries.len();
        let mut i: usize = 0;
        while i < n
            invariant
                n == self.entries@.len(),
                i <= n,
                forall|j: int| 0 <= j < i ==> seq_lt((#[trigger] self.entries@[j]).0@, k@),
            decreases n - i,
        {
            let key = chars_of(self.entries[i].0.as_str());
            if !chars_less(&key, k) {
                return i;
            }
            i = i + 1;
        }
        n
    }

    /// The entry position of key `k`, if the map has it.
    pub fn find(&self, k: &str) -> (r: Option<usize>)
        requires
            self.wf(),
        ensures
            match r {
                Some(i) => i < self.entries().len() && self.entries()[i as int].0@ == k@,
                None => !self@.contains_key(k@),
            },
    {
        let kc = chars_of(k);
        let p = self.position(&kc);
        if p < self.entries.len() {
            let key = chars_of(self.entries[p].0.as_str());
            if !chars_less(&kc, &key) {
                proof {
                    lemma_seq_lt_total(key@, kc@);
                }
                return Some(p);
            }
        }
        proof {
            if self@.contains_key(k@) {
                let c = choose|c: int| 0 <= c < self.entries().len() && (#[trigger] self.entries()[c]).0@ == k@;
                if c < p {
                    lemma_seq_lt_total(k@, k@);
                } else {
                    if c > p {
                        lemma_seq_lt_transitive(k@, self.entries()[p as int].0@, self.entries()[c].0@);
                    }
                    lemma_seq_lt_total(k@, k@);
                }
            }
        }
        None
    }

    /// The value of key `k`.
    pub fn get(&self, k: &str) -> (r: Option<&V>)
        requires
            self.wf(),
        ensures
            match r {
                Some(v) => self@.contains_key(k@) && *v == self@[k@],
                None => !self@.contains_key(k@),
            },
    {
        match self.find(k) {
            Some(i) => {
                proof {
                    lemma_map_of_at(self.entries(), i as int);
                }
                Some(&self.entries[i].1)
            },
            None => None,
        }
    }

    /// Whether the map has key `k`.
    pub fn contains_key(&self, k: &str) -> (r: bool)
        requires
            self.wf(),
        ensures
            r == self@.contains_key(k@),
    {
        match self.find(k) {
            Some(i) => {
                proof {
                    lemma_map_of_at(self.entries(), i as int);
                }
                true
            },
            None => false,
        }
    }

    /// Binds key `k` to `v`, in place of any value it had; returns the value it had.
    pub fn insert(&mut self, k: String, v: V) -> (r: Option<V>)
        requires
            old(self).wf(),
        ensures
            final(self).wf(),
            final(self)@ == old(self)@.insert(k@, v),
            match r {
                Some(w) => old(self)@.contains_key(k@) && w == old(self)@[k@],
                None => !old(self)@.contains_key(k@),
            },
    {
        let ghost s = self.entries@;
        let kc = chars_of(k.as_str());
        let p = self.position(&kc);
        if p < self.entries.len() {
            let key = chars_of(self.entries[p].0.as_str());
            if !chars_less(&kc, &key) {
                proof {
                    lemma_seq_lt_total(key@, kc@);
                    lemma_map_of_at(s, p as int);
                }
                let (_, old_v) = self.entries.remove(p);
                self.entries.insert(p, (k, v));
                proof {
                    let t = self.entries@;
                    assert(t =~= s.update(p as int, (t[p as int].0, v)));
                    assert(t[p as int].0@ == s[p as int].0@);
                    assert(ascending(t)) by {
                        assert forall|i: int, j: int| 0 <= i < j < t.len() implies seq_lt((#[trigger] t[i]).0@, (#[trigger] t[j]).0@) by {
                            assert(seq_lt(s[i].0@, s[j].0@));
                        }
                    }
                    assert(map_of(t) =~= map_of(s).insert(k@, v)) by {
                        assert forall|key: Seq<char>| #[trigger] map_of(t).contains_key(key) <==> map_of(s).insert(k@, v).contains_key(key) by {
                            if has_key(s, key) {
                                let c = choose|c: int| 0 <= c < s.len() && (#[trigger] s[c]).0@ == key;
                                assert(t[c].0@ == key);
                            }
                            if has_key(t, key) {
                                let c = choose|c: int| 0 <= c < t.len() && (#[trigger] t[c]).0@ == key;
                                assert(s[c].0@ == key);
                            }
                        }
                        assert forall|key: Seq<char>| #[trigger] map_of(t).contains_key(key) implies map_of(t)[key] == map_of(s).insert(k@, v)[key] by {
                            let c = choose|c: int| 0 <= c < t.len() && (#[trigger] t[c]).0@ == key;
                            lemma_map_of_at(t, c);
                            if c != p {
                                lemma_map_of_at(s, c);
                            }
                        }
                    }
                }
                return Some(old_v);
            }
        }
        proof {
            if map_of(s).contains_key(k@) {
                let c = choose|c: int| 0 <= c < s.len() && (#[trigger] s[c]).0@ == k@;
                if c < p {
                    lemma_seq_lt_total(k@, k@);
                } else {
                    if c > p {
                        lemma_seq_lt_transitive(k@, s[p as int].0@, s[c].0@);
                    }
                    lemma_seq_lt_total(k@, k@);
                }
            }
        }
        self.entries.insert(p, (k, v));
        proof {
            let t = self.entries@;
            assert(t =~= s.insert(p as int, t[p as int]));
            assert(ascending(t)) by {
                assert forall|i: int, j: int| 0 <= i < j < t.len() implies seq_lt((#[trigger] t[i]).0@, (#[trigger] t[j]).0@) by {
                    if j < p {
                        assert(seq_lt(s[i].0@, s[j].0@));
                    } else if j == p {
                        assert(seq_lt(s[i].0@, k@));
                    } else if i == p {
                        let e = s[j - 1].0@;
                        if j - 1 > p {
                            assert(seq_lt(s[p as int].0@, e));
                        }
                        lemma_seq_lt_total(s[p as int].0@, k@);
                        if j - 1 > p {
                            lemma_seq_lt_transitive(k@, s[p as int].0@, e);
                        }
                    } else if i < p {
                        let e = s[j - 1].0@;
                        if j - 1 >= p {
                            assert(seq_lt(s[i].0@, e));
                        }
                    } else {
                        assert(seq_lt(s[i - 1].0@, s[j - 1].0@));
                    }
                }
            }
            assert(map_of(t) =~= map_of(s).insert(k@, v)) by {
                assert forall|key: Seq<char>| #[trigger] map_of(t).contains_key(key) <==> map_of(s).insert(k@, v).contains_key(key) by {
                    if has_key(s, key) {
                        let c = choose|c: int| 0 <= c < s.len() && (#[trigger] s[c]).0@ == key;
                        if c < p {
                            assert(t[c].0@ == key);
                        } else {
                            assert(t[c + 1].0@ == key);
                        }
                    }
                    if key == k@ {
                        assert(t[p as int].0@ == key);
                    }
                    if has_key(t, key) {
                        let c = choose|c: int| 0 <= c < t.len() && (#[trigger] t[c]).0@ == key;
                        if c < p {
                            assert(s[c].0@ == key);
                        } else if c > p {
                            assert(s[c - 1].0@ == key);
                        }
                    }
                }
                assert forall|key: Seq<char>| #[trigger] map_of(t).contains_key(key) implies map_of(t)[key] == map_of(s).insert(k@, v)[key] by {
                    let c = choose|c: int| 0 <= c < t.len() && (#[trigger] t[c]).0@ == key;
                    lemma_map_of_at(t, c);
                    if c < p {
                        lemma_map_of_at(s, c);
                    } else if c > p {
                        lemma_map_of_at(s, c - 1);
                    }
                }
            }
        }
        None
    }

    /// Replacing the value of entry `i` keeps the keys in order and changes the map at
    /// that entry's key only.
    pub proof fn lemma_replace_value(s: Seq<(String, V)>, i: int, v: V)
        requires
            ascending(s),
            0 <= i < s.len(),
        ensures
            ascending(s.update(i, (s[i].0, v))),
            map_of(s.update(i, (s[i].0, v))) == map_of(s).insert(s[i].0@, v),
    {
        let t = s.update(i, (s[i].0, v));
        assert forall|a: int, b: int| 0 <= a < b < t.len() implies seq_lt((#[trigger] t[a]).0@, (#[trigger] t[b]).0@) by {
            assert(seq_lt(s[a].0@, s[b].0@));
        }
        assert(map_of(t) =~= map_of(s).insert(s[i].0@, v)) by {
            assert forall|key: Seq<char>| #[trigger] map_of(t).contains_key(key) <==> map_of(s).insert(s[i].0@, v).contains_key(key) by {
                if has_key(s, key) {
                    let c = choose|c: int| 0 <= c < s.len() && (#[trigger] s[c]).0@ == key;
                    assert(t[c].0@ == key);
                }
                if key == s[i].0@ {
                    assert(t[i].0@ == key);
                }
                if has_key(t, key) {
                    let c = choose|c: int| 0 <= c < t.len() && (#[trigger] t[c]).0@ == key;
                    assert(s[c].0@ == key);
                }
            }
            assert forall|key: Seq<char>| #[trigger] map_of(t).contains_key(key) implies map_of(t)[key] == map_of(s).insert(s[i].0@, v)[key] by {
                let c = choose|c: int| 0 <= c < t.len() && (#[trigger] t[c]).0@ == key;
                lemma_map_of_at(t, c);
                if c != i {
                    lemma_map_of_at(s, c);
                    if key == s[i].0@ {
                        lemma_ascending_unique(s, c, i);
                    }
                }
            }
        }
    }

    /// The keys, ascending, each listed once; and the map holds exactly these keys.
    pub proof fn lemma_keys(&self)
        requires
            self.wf(),
        ensures
            forall|i: int, j: int| 0 <= i < j < self.keys().len() ==> seq_lt(#[trigger] self.keys()[i], #[trigger] self.keys()[j]),
            forall|k: Seq<char>| #[trigger] self@.contains_key(k) <==> self.keys().contains(k),
            forall|i: int| 0 <= i < self.entries().len() ==> #[trigger] self@[self.entries()[i].0@] == self.entries()[i].1,
    {
        assert forall|k: Seq<char>| #[trigger] self@.contains_key(k) <==> self.keys().contains(k) by {
            if self@.contains_key(k) {
                let c = choose|c: int| 0 <= c < self.entries().len() && (#[trigger] self.entries()[c]).0@ == k;
                assert(self.keys()[c] == k);
            }
            if self.keys().contains(k) {
                let c = choose|c: int| 0 <= c < self.keys().len() && self.keys()[c] == k;
                assert(self.entries()[c].0@ == k);
            }
        }
        assert forall|i: int| 0 <= i < self.entries().len() implies #[trigger] self@[self.entries()[i].0@] == self.entries()[i].1 by {
            lemma_map_of_at(self.entries(), i);
        }
    }
}

} // verus!
