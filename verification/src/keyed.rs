//! Tables and sets keyed by text.

use crate::text::same_text;
use vstd::prelude::*;

verus! {

/// The map that a list of entries stands for.
pub open spec fn entry_map<V>(entries: Seq<(String, V)>) -> Map<Seq<char>, V>
    decreases entries.len(),
{
    if entries.len() == 0 {
        Map::empty()
    } else {
        entry_map(entries.drop_last()).insert(entries.last().0@, entries.last().1)
    }
}

/// No key occurs twice.
pub open spec fn no_key_twice<V>(entries: Seq<(String, V)>) -> bool {
    forall|i: int, j: int| 0 <= i < j < entries.len() ==> entries[i].0@ != entries[j].0@
}

proof fn lemma_entry_present<V>(entries: Seq<(String, V)>, i: int)
    requires
        no_key_twice(entries),
        0 <= i < entries.len(),
    ensures
        entry_map(entries).dom().contains(entries[i].0@),
        entry_map(entries)[entries[i].0@] == entries[i].1,
    decreases entries.len(),
{
    if i < entries.len() - 1 {
        assert(entries.drop_last()[i] == entries[i]);
        lemma_entry_present(entries.drop_last(), i);
    }
}

proof fn lemma_entry_of_key<V>(entries: Seq<(String, V)>, key: Seq<char>)
    ensures
        entry_map(entries).dom().contains(key) <==> exists|i: int|
            0 <= i < entries.len() && #[trigger] entries[i].0@ == key,
    decreases entries.len(),
{
    if entries.len() > 0 {
        let front = entries.drop_last();
        lemma_entry_of_key(front, key);
        if entries.last().0@ == key {
            assert(entries[entries.len() - 1].0@ == key);
        }
        if exists|i: int| 0 <= i < front.len() && #[trigger] front[i].0@ == key {
            let i = choose|i: int| 0 <= i < front.len() && #[trigger] front[i].0@ == key;
            assert(entries[i].0@ == key);
        }
        if exists|i: int| 0 <= i < entries.len() && #[trigger] entries[i].0@ == key {
            let i = choose|i: int| 0 <= i < entries.len() && #[trigger] entries[i].0@ == key;
            if i < front.len() {
                assert(front[i].0@ == key);
            }
        }
    }
}

proof fn lemma_entry_removed<V>(entries: Seq<(String, V)>, i: int)
    requires
        no_key_twice(entries),
        0 <= i < entries.len(),
    ensures
        no_key_twice(entries.remove(i)),
        entry_map(entries.remove(i)) == entry_map(entries).remove(entries[i].0@),
    decreases entries.len(),
{
    let key = entries[i].0@;
    let front = entries.drop_last();
    if i == entries.len() - 1 {
        assert(entries.remove(i) =~= front);
        lemma_entry_of_key(front, key);
        assert(entry_map(entries).remove(key) =~= entry_map(front));
    } else {
        assert(front[i] == entries[i]);
        lemma_entry_removed(front, i);
        assert(entries.remove(i).drop_last() =~= front.remove(i));
        assert(entries.remove(i).last() == entries.last());
        assert(entry_map(entries.remove(i)) =~= entry_map(entries).remove(key));
    }
}

/// Some key of the map has this value.
pub open spec fn holds<V>(map: Map<Seq<char>, V>, value: V) -> bool {
    exists|key: Seq<char>| #[trigger] map.dom().contains(key) && map[key] == value
}

/// The keys of the map, each once.
pub open spec fn lists_keys<V>(map: Map<Seq<char>, V>, keys: Seq<Seq<char>>) -> bool {
    keys.no_duplicates() && forall|key: Seq<char>| #[trigger]
        map.dom().contains(key) <==> keys.contains(key)
}

/// A map from text to small values.
pub struct TextMap<V> {
    entries: Vec<(String, V)>,
}

impl<V> View for TextMap<V> {
    type V = Map<Seq<char>, V>;

    closed spec fn view(&self) -> Map<Seq<char>, V> {
        entry_map(self.entries@)
    }
}

impl<V> TextMap<V> {
    #[verifier::type_invariant]
    spec fn inv(self) -> bool {
        no_key_twice(self.entries@)
    }
}

impl<V: Copy> TextMap<V> {
    pub fn new() -> (r: Self)
        ensures
            r@ == Map::<Seq<char>, V>::empty(),
    {
        TextMap { entries: Vec::new() }
    }

    fn position(&self, key: &str) -> (r: Option<usize>)
        ensures
            match r {
                Some(i) => i < self.entries.len() && self.entries[i as int].0@ == key@,
                None => forall|i: int| 0 <= i < self.entries.len() ==> self.entries[i].0@ != key@,
            },
    {
        let mut i: usize = 0;
        while i < self.entries.len()
            invariant
                i <= self.entries.len(),
                forall|j: int| 0 <= j < i ==> self.entries[j].0@ != key@,
            decreases self.entries.len() - i,
        {
            if same_text(self.entries[i].0.as_str(), key) {
                return Some(i);
            }
            i = i + 1;
        }
        None
    }

    pub fn get(&self, key: &str) -> (r: Option<V>)
        ensures
            r == (if self@.dom().contains(key@) {
                Some(self@[key@])
            } else {
                None
            }),
    {
        proof {
            use_type_invariant(self);
            lemma_entry_of_key(self.entries@, key@);
        }
        match self.position(key) {
            Some(i) => {
                proof {
                    lemma_entry_present(self.entries@, i as int);
                }
                Some(self.entries[i].1)
            },
            None => None,
        }
    }

    /// The values, each as often as it is held, in no particular order.
    pub fn values(&self) -> (r: Vec<V>)
        ensures
            exists|keys: Seq<Seq<char>>| #[trigger]
                lists_keys(self@, keys) && r@ == Seq::new(keys.len(), |i: int| self@[keys[i]]),
            forall|value: V| holds(self@, value) ==> #[trigger] r@.contains(value),
            forall|i: int| 0 <= i < r.len() ==> holds(self@, #[trigger] r[i]),
    {
        let mut r: Vec<V> = Vec::new();
        let mut n: usize = 0;
        while n < self.entries.len()
            invariant
                n == r.len(),
                n <= self.entries.len(),
                forall|i: int| 0 <= i < n ==> r[i] == self.entries[i].1,
            decreases self.entries.len() - n,
        {
            r.push(self.entries[n].1);
            n = n + 1;
        }
        proof {
            use_type_invariant(self);
            assert forall|value: V| holds(self@, value) implies #[trigger] r@.contains(value) by {
                let key = choose|key: Seq<char>| #[trigger]
                    self@.dom().contains(key) && self@[key] == value;
                lemma_entry_of_key(self.entries@, key);
                let i = choose|i: int|
                    0 <= i < self.entries.len() && #[trigger] self.entries[i].0@ == key;
                lemma_entry_present(self.entries@, i);
                assert(r@[i] == value);
            }
            assert forall|i: int| 0 <= i < r.len() implies holds(self@, #[trigger] r[i]) by {
                lemma_entry_present(self.entries@, i);
                assert(self@.dom().contains(self.entries[i].0@));
            }
            let keys = Seq::new(self.entries@.len(), |i: int| self.entries@[i].0@);
            assert forall|key: Seq<char>| #[trigger] self@.dom().contains(key)
                <==> keys.contains(key) by {
                lemma_entry_of_key(self.entries@, key);
                if self@.dom().contains(key) {
                    let i = choose|i: int|
                        0 <= i < self.entries.len() && #[trigger] self.entries[i].0@ == key;
                    assert(keys[i] == key);
                }
                if keys.contains(key) {
                    let i = choose|i: int| 0 <= i < keys.len() && keys[i] == key;
                    assert(self.entries[i].0@ == key);
                }
            }
            assert(lists_keys(self@, keys));
            assert forall|i: int| 0 <= i < keys.len() implies r@[i] == self@[keys[i]] by {
                lemma_entry_present(self.entries@, i);
            }
            assert(r@ =~= Seq::new(keys.len(), |i: int| self@[keys[i]]));
        }
        r
    }

    pub fn remove(&mut self, key: &str)
        ensures
            final(self)@ == old(self)@.remove(key@),
    {
        proof {
            use_type_invariant(&*self);
            lemma_entry_of_key(self.entries@, key@);
        }
        match self.position(key) {
            Some(i) => {
                proof {
                    lemma_entry_removed(self.entries@, i as int);
                }
                let mut entries: Vec<(String, V)> = Vec::new();
                std::mem::swap(&mut entries, &mut self.entries);
                entries.remove(i);
                self.entries = entries;
            },
            None => {
                assert(self@.remove(key@) =~= self@);
            },
        }
    }

    pub fn insert(&mut self, key: &str, value: V)
        ensures
            final(self)@ == old(self)@.insert(key@, value),
    {
        self.remove(key);
        proof {
            use_type_invariant(&*self);
            lemma_entry_of_key(self.entries@, key@);
        }
        let entry = (key.to_owned(), value);
        let ghost before = self.entries@;
        let mut entries: Vec<(String, V)> = Vec::new();
        std::mem::swap(&mut entries, &mut self.entries);
        entries.push(entry);
        proof {
            assert(entries@.drop_last() =~= before);
        }
        self.entries = entries;
        proof {
            assert(self@ =~= old(self)@.insert(key@, value));
        }
    }
}

/// The pairs that a list holds.
pub open spec fn pair_set(pairs: Seq<(String, String)>) -> Set<(Seq<char>, Seq<char>)> {
    Set::new(
        |p: (Seq<char>, Seq<char>)|
            exists|i: int| 0 <= i < pairs.len() && #[trigger] pairs[i].0@ == p.0 && pairs[i].1@ == p.1,
    )
}

/// A set of pairs of texts.
pub struct PairSet {
    pairs: Vec<(String, String)>,
}

impl View for PairSet {
    type V = Set<(Seq<char>, Seq<char>)>;

    closed spec fn view(&self) -> Set<(Seq<char>, Seq<char>)> {
        pair_set(self.pairs@)
    }
}

impl PairSet {
    pub fn new() -> (r: Self)
        ensures
            r@ == Set::<(Seq<char>, Seq<char>)>::empty(),
    {
        let r = PairSet { pairs: Vec::new() };
        proof {
            assert(r@ =~= Set::<(Seq<char>, Seq<char>)>::empty());
        }
        r
    }

    pub fn contains(&self, a: &str, b: &str) -> (r: bool)
        ensures
            r == self@.contains((a@, b@)),
    {
        let mut i: usize = 0;
        while i < self.pairs.len()
            invariant
                i <= self.pairs.len(),
                forall|j: int|
                    0 <= j < i ==> #[trigger] self.pairs[j].0@ != a@ || self.pairs[j].1@ != b@,
            decreases self.pairs.len() - i,
        {
            if same_text(self.pairs[i].0.as_str(), a) && same_text(self.pairs[i].1.as_str(), b) {
                assert(self.pairs[i as int].0@ == a@);
                return true;
            }
            i = i + 1;
        }
        false
    }

    pub fn insert(&mut self, a: &str, b: &str)
        ensures
            final(self)@ == old(self)@.insert((a@, b@)),
    {
        if self.contains(a, b) {
            assert(self@.insert((a@, b@)) =~= self@);
            return ;
        }
        let ghost before = self.pairs@;
        let pair = (a.to_owned(), b.to_owned());
        self.pairs.push(pair);
        proof {
            lemma_pair_pushed(before, pair);
        }
    }

    pub fn remove(&mut self, a: &str, b: &str)
        ensures
            final(self)@ == old(self)@.remove((a@, b@)),
    {
        let ghost whole = self.pairs@;
        let mut kept: Vec<(String, String)> = Vec::new();
        let mut i: usize = 0;
        while i < self.pairs.len()
            invariant
                i <= self.pairs.len(),
                self.pairs@ == whole,
                pair_set(kept@) == pair_set(whole.take(i as int)).remove((a@, b@)),
            decreases self.pairs.len() - i,
        {
            let ghost n = i as int;
            proof {
                lemma_pair_pushed(whole.take(n), whole[n]);
                assert(whole.take(n + 1) =~= whole.take(n).push(whole[n]));
            }
            if same_text(self.pairs[i].0.as_str(), a) && same_text(self.pairs[i].1.as_str(), b) {
                assert(pair_set(kept@) =~= pair_set(whole.take(n + 1)).remove((a@, b@)));
            } else {
                let pair = (self.pairs[i].0.clone(), self.pairs[i].1.clone());
                proof {
                    lemma_pair_pushed(kept@, pair);
                }
                kept.push(pair);
                assert(pair_set(kept@) =~= pair_set(whole.take(n + 1)).remove((a@, b@)));
            }
            i = i + 1;
        }
        proof {
            assert(whole.take(i as int) =~= whole);
        }
        self.pairs = kept;
    }
}

proof fn lemma_pair_pushed(pairs: Seq<(String, String)>, pair: (String, String))
    ensures
        pair_set(pairs.push(pair)) == pair_set(pairs).insert((pair.0@, pair.1@)),
{
    let more = pairs.push(pair);
    assert(more[pairs.len() as int].0@ == pair.0@);
    assert forall|p: (Seq<char>, Seq<char>)| #[trigger] pair_set(pairs).contains(p) implies pair_set(
        more,
    ).contains(p) by {
        let i = choose|i: int|
            0 <= i < pairs.len() && #[trigger] pairs[i].0@ == p.0 && pairs[i].1@ == p.1;
        assert(more[i].0@ == p.0);
    }
    assert forall|p: (Seq<char>, Seq<char>)| #[trigger]
        pair_set(more).contains(p) && p != (pair.0@, pair.1@) implies pair_set(pairs).contains(
        p,
    ) by {
        let i = choose|i: int|
            0 <= i < more.len() && #[trigger] more[i].0@ == p.0 && more[i].1@ == p.1;
        assert(pairs[i].0@ == p.0);
    }
    assert(pair_set(more) =~= pair_set(pairs).insert((pair.0@, pair.1@)));
}

} // verus!
