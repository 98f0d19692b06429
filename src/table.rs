//! A map from string keys to values, kept as a list of entries with distinct
//! keys in the order they were first inserted.

use vstd::prelude::*;

use crate::text::str_eq;

verus! {

/// No two entries share a key.
pub open spec fn keys_unique<V>(s: Seq<(String, V)>) -> bool {
    forall|i: int, j: int|
        0 <= i < s.len() && 0 <= j < s.len() && i != j ==> #[trigger] s[i].0@ != #[trigger] s[j].0@
}

/// The map that a list of entries stands for; where keys repeat, a later
/// entry overrides an earlier one.
pub open spec fn map_of<V>(s: Seq<(String, V)>) -> Map<Seq<char>, V>
    decreases s.len(),
{
    if s.len() == 0 {
        Map::empty()
    } else {
        map_of(s.drop_last()).insert(s.last().0@, s.last().1)
    }
}

/// `i` is the last entry with key `k`.
pub open spec fn last_with<V>(s: Seq<(String, V)>, i: int, k: Seq<char>) -> bool {
    &&& 0 <= i < s.len()
    &&& s[i].0@ == k
    &&& forall|j: int| i < j < s.len() ==> #[trigger] s[j].0@ != k
}

/// A key is in the map exactly when some entry has it.
proof fn lemma_map_of_keys<V>(s: Seq<(String, V)>, k: Seq<char>)
    ensures
        map_of(s).contains_key(k) <==> exists|i: int| 0 <= i < s.len() && s[i].0@ == k,
    decreases s.len(),
{
    if s.len() > 0 {
        let t = s.drop_last();
        lemma_map_of_keys(t, k);
        if map_of(s).contains_key(k) && k != s.last().0@ {
            let i = choose|i: int| 0 <= i < t.len() && t[i].0@ == k;
            assert(s[i].0@ == k);
        }
        if exists|i: int| 0 <= i < s.len() && s[i].0@ == k {
            let i = choose|i: int| 0 <= i < s.len() && s[i].0@ == k;
            if i < s.len() - 1 {
                assert(t[i].0@ == k);
            }
        }
    }
}

/// A key maps to the value of its last entry.
proof fn lemma_map_of_last<V>(s: Seq<(String, V)>, i: int, k: Seq<char>)
    requires
        last_with(s, i, k),
    ensures
        map_of(s).contains_key(k),
        map_of(s)[k] == s[i].1,
    decreases s.len(),
{
    if i < s.len() - 1 {
        let t = s.drop_last();
        assert(s[s.len() - 1].0@ != k);
        assert forall|j: int| i < j < t.len() implies #[trigger] t[j].0@ != k by {
            assert(t[j] == s[j]);
        }
        lemma_map_of_last(t, i, k);
    }
}

/// Replacing the last entry of a key, under the same key, is an insert into
/// the map.
proof fn lemma_map_of_update<V>(s: Seq<(String, V)>, i: int, e: (String, V))
    requires
        last_with(s, i, e.0@),
    ensures
        map_of(s.update(i, e)) == map_of(s).insert(e.0@, e.1),
    decreases s.len(),
{
    let u = s.update(i, e);
    if i == s.len() - 1 {
        assert(u.drop_last() =~= s.drop_last());
        assert(map_of(u) =~= map_of(s).insert(e.0@, e.1));
    } else {
        let t = s.drop_last();
        assert(u.drop_last() =~= t.update(i, e));
        assert forall|j: int| i < j < t.len() implies #[trigger] t[j].0@ != e.0@ by {
            assert(t[j] == s[j]);
        }
        lemma_map_of_update(t, i, e);
        assert(s[s.len() - 1].0@ != e.0@);
        assert(map_of(u) =~= map_of(s).insert(e.0@, e.1));
    }
}

/// A map from strings to values, kept as entries with distinct keys.
pub struct Table<V> {
    entries: Vec<(String, V)>,
}

impl<V> View for Table<V> {
    type V = Map<Seq<char>, V>;

    closed spec fn view(&self) -> Map<Seq<char>, V> {
        map_of(self.entries@)
    }
}

/// Variable names bound to their string values.
pub type Vars = Table<String>;

/// The bindings of a variable table, each value taken as its text.
pub open spec fn env_of(m: Map<Seq<char>, String>) -> Map<Seq<char>, Seq<char>> {
    m.map_values(|s: String| s@)
}

impl<V> Table<V> {
    #[verifier::type_invariant]
    spec fn inv(&self) -> bool {
        keys_unique(self.entries@)
    }

    /// An empty table.
    pub fn new() -> (r: Self)
        ensures
            r@ == Map::<Seq<char>, V>::empty(),
    {
        Table { entries: Vec::new() }
    }

    /// The index of the last entry with key `key`, if there is one.
    fn find(&self, key: &str) -> (r: Option<usize>)
        ensures
            match r {
                Some(i) => last_with(self.entries@, i as int, key@),
                None => forall|i: int|
                    0 <= i < self.entries@.len() ==> #[trigger] self.entries@[i].0@ != key@,
            },
    {
        let mut i: usize = self.entries.len();
        while i > 0
            invariant
                i <= self.entries@.len(),
                forall|j: int| i <= j < self.entries@.len() ==> #[trigger] self.entries@[j].0@ != key@,
            decreases i,
        {
            i -= 1;
            if str_eq(self.entries[i].0.as_str(), key) {
                return Some(i);
            }
        }
        None
    }

    /// Whether `key` is bound.
    pub fn contains_key(&self, key: &str) -> (r: bool)
        ensures
            r == self@.contains_key(key@),
    {
        proof {
            lemma_map_of_keys(self.entries@, key@);
        }
        self.find(key).is_some()
    }

    /// The value bound to `key`, if any.
    pub fn get(&self, key: &str) -> (r: Option<&V>)
        ensures
            r is Some == self@.contains_key(key@),
            r is Some ==> *r->Some_0 == self@[key@],
    {
        proof {
            lemma_map_of_keys(self.entries@, key@);
        }
        match self.find(key) {
            Some(i) => {
                proof {
                    lemma_map_of_last(self.entries@, i as int, key@);
                }
                Some(&self.entries[i].1)
            },
            None => None,
        }
    }

    /// Binds `key` to `value`, replacing an earlier binding of `key`.
    pub fn insert(&mut self, key: String, value: V)
        ensures
            final(self)@ == old(self)@.insert(key@, value),
    {
        proof {
            use_type_invariant(&*self);
        }
        let ghost s = self.entries@;
        let found = self.find(key.as_str());
        let mut taken = Table::new();
        core::mem::swap(self, &mut taken);
        proof {
            use_type_invariant(&taken);
        }
        let Table { mut entries } = taken;
        match found {
            Some(i) => {
                proof {
                    lemma_map_of_update(s, i as int, (key, value));
                    let u = s.update(i as int, (key, value));
                    assert forall|a: int, b: int|
                        0 <= a < u.len() && 0 <= b < u.len() && a != b implies #[trigger] u[a].0@
                        != #[trigger] u[b].0@ by {
                        assert(u[a].0@ == s[a].0@ && u[b].0@ == s[b].0@);
                    }
                }
                entries.set(i, (key, value));
            },
            None => {
                entries.push((key, value));
                proof {
                    let u = entries@;
                    assert(u.drop_last() =~= s);
                    assert forall|a: int, b: int|
                        0 <= a < u.len() && 0 <= b < u.len() && a != b implies #[trigger] u[a].0@
                        != #[trigger] u[b].0@ by {
                        if a < s.len() {
                            assert(u[a] == s[a]);
                        }
                        if b < s.len() {
                            assert(u[b] == s[b]);
                        }
                    }
                }
            },
        }
        *self = Table { entries };
    }

    /// The entries in order of first insertion: no two share a key, a key is
    /// bound exactly when some entry has it, and to that entry's value.
    pub fn entries(&self) -> (r: &[(String, V)])
        ensures
            map_of(r@) == self@,
            keys_unique(r@),
            forall|k: Seq<char>|
                #![trigger self@.contains_key(k)]
                self@.contains_key(k) <==> exists|i: int| 0 <= i < r@.len() && r@[i].0@ == k,
            forall|i: int| #![trigger r@[i]] 0 <= i < r@.len() ==> self@[r@[i].0@] == r@[i].1,
    {
        proof {
            use_type_invariant(self);
            assert forall|k: Seq<char>| #![trigger self@.contains_key(k)] self@.contains_key(k) <==> exists|i: int|
                0 <= i < self.entries@.len() && self.entries@[i].0@ == k by {
                lemma_map_of_keys(self.entries@, k);
            }
            assert forall|i: int| #![trigger self.entries@[i]] 0 <= i < self.entries@.len()
                implies self@[self.entries@[i].0@] == self.entries@[i].1 by {
                let s = self.entries@;
                assert forall|j: int| i < j < s.len() implies #[trigger] s[j].0@ != s[i].0@ by {
                    assert(s[j].0@ != s[i].0@);
                }
                lemma_map_of_last(s, i, s[i].0@);
            }
        }
        self.entries.as_slice()
    }
}

impl Table<String> {
    /// Binds every key of `other` to its value there, replacing earlier
    /// bindings.
    pub fn extend(&mut self, other: &Table<String>)
        ensures
            final(self)@ == old(self)@.union_prefer_right(other@),
    {
        let es = other.entries();
        let mut i: usize = 0;
        while i < es.len()
            invariant
                i <= es@.len(),
                map_of(es@) == other@,
                self@ == old(self)@.union_prefer_right(map_of(es@.take(i as int))),
            decreases es@.len() - i,
        {
            let ghost before = self@;
            self.insert(es[i].0.clone(), es[i].1.clone());
            proof {
                assert(es@.take(i + 1).drop_last() =~= es@.take(i as int));
                assert(self@ =~= old(self)@.union_prefer_right(map_of(es@.take(i + 1))));
            }
            i += 1;
        }
        proof {
            assert(es@.take(es@.len() as int) =~= es@);
        }
    }
}

} // verus!
