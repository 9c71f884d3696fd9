use vstd::prelude::*;

verus! {

/// The string pairs of a `StrMap`, each taken by its characters.
pub open spec fn pair_views(s: Seq<(String, String)>) -> Seq<(Seq<char>, Seq<char>)> {
    s.map_values(|p: (String, String)| (p.0@, p.1@))
}

/// No key occurs twice in `s`.
pub open spec fn keys_distinct(s: Seq<(Seq<char>, Seq<char>)>) -> bool {
    forall|i: int, j: int| 0 <= i < j < s.len() ==> #[trigger] s[i].0 != #[trigger] s[j].0
}

/// The map that inserting the pairs of `s` one after the other, into an empty map, builds.
/// A later pair for a key replaces an earlier one.
pub open spec fn pairs_to_map(s: Seq<(Seq<char>, Seq<char>)>) -> Map<Seq<char>, Seq<char>>
    decreases s.len(),
{
    if s.len() == 0 {
        Map::empty()
    } else {
        pairs_to_map(s.drop_last()).insert(s.last().0, s.last().1)
    }
}

/// A key occurs in the map built from `s` exactly when some pair of `s` has it.
pub proof fn lemma_pairs_to_map_dom(s: Seq<(Seq<char>, Seq<char>)>, k: Seq<char>)
    ensures
        pairs_to_map(s).contains_key(k) <==> exists|i: int| 0 <= i < s.len() && #[trigger] s[i].0 == k,
    decreases s.len(),
{
    if s.len() > 0 {
        lemma_pairs_to_map_dom(s.drop_last(), k);
        if pairs_to_map(s.drop_last()).contains_key(k) {
            let i = choose|i: int| 0 <= i < s.drop_last().len() && #[trigger] s.drop_last()[i].0 == k;
            assert(s[i].0 == k);
        }
        if exists|i: int| 0 <= i < s.len() && #[trigger] s[i].0 == k {
            let i = choose|i: int| 0 <= i < s.len() && #[trigger] s[i].0 == k;
            if i < s.len() - 1 {
                assert(s.drop_last()[i].0 == k);
            }
        }
    }
}

/// With distinct keys, each pair of `s` is a binding of the map built from `s`.
pub proof fn lemma_pairs_to_map_entry(s: Seq<(Seq<char>, Seq<char>)>, i: int)
    requires
        keys_distinct(s),
        0 <= i < s.len(),
    ensures
        pairs_to_map(s).contains_key(s[i].0),
        pairs_to_map(s)[s[i].0] == s[i].1,
    decreases s.len(),
{
    if i < s.len() - 1 {
        let t = s.drop_last();
        assert(keys_distinct(t)) by {
            assert forall|a: int, b: int| 0 <= a < b < t.len() implies #[trigger] t[a].0 != #[trigger] t[b].0 by {
                assert(t[a] == s[a] && t[b] == s[b]);
            }
        }
        lemma_pairs_to_map_entry(t, i);
        assert(t[i] == s[i]);
        assert(s[i].0 != s[s.len() - 1].0);
    }
}

/// With distinct keys, the map built from `s` has as many keys as `s` has pairs.
pub proof fn lemma_pairs_to_map_len(s: Seq<(Seq<char>, Seq<char>)>)
    requires
        keys_distinct(s),
    ensures
        pairs_to_map(s).dom().finite(),
        pairs_to_map(s).dom().len() == s.len(),
    decreases s.len(),
{
    if s.len() > 0 {
        let t = s.drop_last();
        assert(keys_distinct(t)) by {
            assert forall|a: int, b: int| 0 <= a < b < t.len() implies #[trigger] t[a].0 != #[trigger] t[b].0 by {
                assert(t[a] == s[a] && t[b] == s[b]);
            }
        }
        lemma_pairs_to_map_len(t);
        lemma_pairs_to_map_dom(t, s.last().0);
        if pairs_to_map(t).contains_key(s.last().0) {
            let i = choose|i: int| 0 <= i < t.len() && #[trigger] t[i].0 == s.last().0;
            assert(t[i] == s[i]);
            assert(false);
        }
        assert(pairs_to_map(s).dom() == pairs_to_map(t).dom().insert(s.last().0));
    }
}

/// A map from strings to strings that keeps one value per key, as a list of pairs.
///
/// Its model is a `Map` from the key's characters to the value's characters;
/// no key occurs twice in the list.
pub struct StrMap {
    entries: Vec<(String, String)>,
}

impl View for StrMap {
    type V = Map<Seq<char>, Seq<char>>;

    closed spec fn view(&self) -> Map<Seq<char>, Seq<char>> {
        pairs_to_map(pair_views(self.entries@))
    }
}

impl StrMap {
    #[verifier::type_invariant]
    pub closed spec fn wf(self) -> bool {
        keys_distinct(pair_views(self.entries@))
    }

    /// The pairs of the map, in the order in which their keys were first inserted.
    pub closed spec fn pairs(self) -> Seq<(Seq<char>, Seq<char>)> {
        pair_views(self.entries@)
    }

    /// The pairs hold distinct keys, and they are exactly the bindings of the map.
    pub proof fn lemma_pairs(self)
        requires
            self.wf(),
        ensures
            keys_distinct(self.pairs()),
            self@ == pairs_to_map(self.pairs()),
            self@.dom().finite(),
            self@.dom().len() == self.pairs().len(),
            forall|i: int|
                0 <= i < self.pairs().len() ==> #[trigger] self@.contains_key(self.pairs()[i].0)
                    && self@[self.pairs()[i].0] == self.pairs()[i].1,
            forall|k: Seq<char>|
                #[trigger] self@.contains_key(k) ==> exists|i: int|
                    0 <= i < self.pairs().len() && #[trigger] self.pairs()[i].0 == k,
    {
        lemma_pairs_to_map_len(self.pairs());
        assert forall|i: int| 0 <= i < self.pairs().len() implies #[trigger] self@.contains_key(
            self.pairs()[i].0,
        ) && self@[self.pairs()[i].0] == self.pairs()[i].1 by {
            lemma_pairs_to_map_entry(self.pairs(), i);
        }
        assert forall|k: Seq<char>| #[trigger] self@.contains_key(k) implies exists|i: int|
            0 <= i < self.pairs().len() && #[trigger] self.pairs()[i].0 == k by {
            lemma_pairs_to_map_dom(self.pairs(), k);
        }
    }

    /// An empty map.
    pub fn new() -> (r: StrMap)
        ensures
            r@ == Map::<Seq<char>, Seq<char>>::empty(),
    {
        let r = StrMap { entries: Vec::new() };
        assert(pair_views(r.entries@) =~= Seq::<(Seq<char>, Seq<char>)>::empty());
        r
    }

    /// The number of keys.
    pub fn len(&self) -> (r: usize)
        ensures
            r == self@.dom().len(),
    {
        proof {
            use_type_invariant(self);
            self.lemma_pairs();
        }
        self.entries.len()
    }

    /// Whether the map holds no key.
    pub fn is_empty(&self) -> (r: bool)
        ensures
            r <==> self@ == Map::<Seq<char>, Seq<char>>::empty(),
    {
        proof {
            use_type_invariant(self);
            self.lemma_pairs();
            if self.entries.len() == 0 {
                assert(self.pairs() =~= Seq::<(Seq<char>, Seq<char>)>::empty());
                assert(self@ =~= Map::<Seq<char>, Seq<char>>::empty());
            } else {
                assert(self@.contains_key(self.pairs()[0].0));
            }
        }
        self.entries.len() == 0
    }

    /// The position of `key` in the list of pairs, if it is there.
    fn position(&self, key: &String) -> (r: Option<usize>)
        ensures
            match r {
                Some(i) => i < self.pairs().len() && self.pairs()[i as int].0 == key@,
                None => forall|i: int| 0 <= i < self.pairs().len() ==> self.pairs()[i].0 != key@,
            },
    {
        let n = self.entries.len();
        for i in 0..n
            invariant
                n == self.entries@.len(),
                forall|j: int| 0 <= j < i ==> self.pairs()[j].0 != key@,
        {
            if self.entries[i].0 == *key {
                return Some(i);
            }
        }
        None
    }

    /// The value bound to `key`, if any.
    pub fn get(&self, key: &str) -> (r: Option<&String>)
        ensures
            match r {
                Some(v) => self@.contains_key(key@) && self@[key@] == v@,
                None => !self@.contains_key(key@),
            },
    {
        proof {
            use_type_invariant(self);
            self.lemma_pairs();
        }
        let k = key.to_owned();
        match self.position(&k) {
            Some(i) => {
                assert(self.pairs()[i as int].1 == self.entries@[i as int].1@);
                assert(self@.contains_key(self.pairs()[i as int].0));
                Some(&self.entries[i].1)
            },
            None => None,
        }
    }

    /// Whether `key` is bound.
    pub fn contains_key(&self, key: &str) -> (r: bool)
        ensures
            r == self@.contains_key(key@),
    {
        self.get(key).is_some()
    }

    /// Binds `key` to `value`, replacing the value it had.
    pub fn insert(&mut self, key: String, value: String)
        ensures
            final(self)@ == old(self)@.insert(key@, value@),
    {
        proof {
            use_type_invariant(&*self);
        }
        let ghost old_pairs = self.pairs();
        let pos = self.position(&key);
        let mut entries = Vec::new();
        std::mem::swap(&mut entries, &mut self.entries);
        match pos {
            Some(i) => {
                let ghost kv = key@;
                let ghost vv = value@;
                entries.set(i, (key, value));
                let ghost new_pairs = pair_views(entries@);
                assert(new_pairs =~= old_pairs.update(i as int, (kv, vv)));
                assert(keys_distinct(new_pairs)) by {
                    assert forall|a: int, b: int| 0 <= a < b < new_pairs.len() implies #[trigger] new_pairs[a].0
                        != #[trigger] new_pairs[b].0 by {
                        assert(old_pairs[a].0 != old_pairs[b].0);
                    }
                }
                proof {
                    lemma_pairs_to_map_len(old_pairs);
                    lemma_pairs_to_map_len(new_pairs);
                    assert forall|k: Seq<char>| #[trigger] pairs_to_map(new_pairs).contains_key(k) <==> pairs_to_map(old_pairs).insert(kv, vv).contains_key(k) by {
                        lemma_pairs_to_map_dom(new_pairs, k);
                        lemma_pairs_to_map_dom(old_pairs, k);
                        if exists|j: int| 0 <= j < old_pairs.len() && #[trigger] old_pairs[j].0 == k {
                            let j = choose|j: int| 0 <= j < old_pairs.len() && #[trigger] old_pairs[j].0 == k;
                            assert(new_pairs[j].0 == k);
                        }
                        if exists|j: int| 0 <= j < new_pairs.len() && #[trigger] new_pairs[j].0 == k {
                            let j = choose|j: int| 0 <= j < new_pairs.len() && #[trigger] new_pairs[j].0 == k;
                            if j != i {
                                assert(old_pairs[j].0 == k);
                            }
                        }
                    }
                    assert forall|k: Seq<char>| #[trigger] pairs_to_map(new_pairs).contains_key(k) implies pairs_to_map(new_pairs)[k] == pairs_to_map(old_pairs).insert(kv, vv)[k] by {
                        lemma_pairs_to_map_dom(new_pairs, k);
                        let j = choose|j: int| 0 <= j < new_pairs.len() && #[trigger] new_pairs[j].0 == k;
                        lemma_pairs_to_map_entry(new_pairs, j);
                        if j != i {
                            lemma_pairs_to_map_entry(old_pairs, j);
                        }
                    }
                    assert(pairs_to_map(new_pairs) =~= pairs_to_map(old_pairs).insert(kv, vv));
                }
            },
            None => {
                entries.push((key, value));
                let ghost new_pairs = pair_views(entries@);
                assert(new_pairs.drop_last() =~= old_pairs);
                assert(keys_distinct(new_pairs)) by {
                    assert forall|a: int, b: int| 0 <= a < b < new_pairs.len() implies #[trigger] new_pairs[a].0
                        != #[trigger] new_pairs[b].0 by {
                        if b < old_pairs.len() {
                            assert(old_pairs[a].0 != old_pairs[b].0);
                        } else {
                            assert(new_pairs[a] == old_pairs[a]);
                        }
                    }
                }
            },
        }
        self.entries = entries;
    }

    /// The map that inserting the given pairs one after the other builds.
    pub fn from_pairs(pairs: Vec<(String, String)>) -> (r: StrMap)
        ensures
            r@ == pairs_to_map(pair_views(pairs@)),
    {
        let ghost pv = pair_views(pairs@);
        let mut m = StrMap::new();
        assert(pv.take(0) =~= Seq::<(Seq<char>, Seq<char>)>::empty());
        for p in it: pairs
            invariant
                it.seq() == pairs@,
                pv == pair_views(pairs@),
                m@ == pairs_to_map(pv.take(it.index() as int)),
        {
            let ghost i = it.index();
            assert(pv.take(i + 1).drop_last() =~= pv.take(i as int));
            m.insert(p.0, p.1);
        }
        assert(pv.take(pv.len() as int) =~= pv);
        m
    }

    /// The key and value of the pair at position `i` of the list.
    pub fn pair_at(&self, i: usize) -> (r: (&String, &String))
        requires
            i < self.pairs().len(),
        ensures
            r.0@ == self.pairs()[i as int].0,
            r.1@ == self.pairs()[i as int].1,
    {
        let p = &self.entries[i];
        (&p.0, &p.1)
    }

    /// The number of pairs in the list.
    pub fn pair_count(&self) -> (r: usize)
        ensures
            r == self.pairs().len(),
    {
        self.entries.len()
    }
}

impl Default for StrMap {
    fn default() -> (r: StrMap)
        ensures
            r@ == Map::<Seq<char>, Seq<char>>::empty(),
    {
        StrMap::new()
    }
}

} // verus!
