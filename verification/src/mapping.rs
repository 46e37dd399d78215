//! An insertion-ordered mapping from text keys to text values.
//!
//! Headers and query parameters are both mappings with unique keys. The
//! contracts see a mapping in two ways: as the sequence of its pairs, in the
//! order in which the keys were first inserted, and as the mathematical map
//! that this sequence stands for.

use vstd::prelude::*;

verus! {

/// A key and its value, as contracts see them.
pub type Pair = (Seq<char>, Seq<char>);

/// The pairs held by a vector of owned strings.
pub open spec fn pairs_of(entries: Seq<(String, String)>) -> Seq<Pair> {
    Seq::new(entries.len(), |i: int| (entries[i].0@, entries[i].1@))
}

/// Whether some pair has the given key.
pub open spec fn has_key(pairs: Seq<Pair>, key: Seq<char>) -> bool {
    exists|i: int| 0 <= i < pairs.len() && (#[trigger] pairs[i]).0 == key
}

/// A position at which the given key stands, if there is one.
pub open spec fn key_index(pairs: Seq<Pair>, key: Seq<char>) -> int {
    choose|i: int| 0 <= i < pairs.len() && (#[trigger] pairs[i]).0 == key
}

/// No key occurs twice.
pub open spec fn distinct_keys(pairs: Seq<Pair>) -> bool {
    forall|i: int, j: int|
        0 <= i < j < pairs.len() ==> (#[trigger] pairs[i]).0 != (#[trigger] pairs[j]).0
}

/// The pairs after `key` has been given `value`: a key that is already there
/// keeps its place and takes the new value, a new key goes to the end.
pub open spec fn put(pairs: Seq<Pair>, key: Seq<char>, value: Seq<char>) -> Seq<Pair> {
    if has_key(pairs, key) {
        pairs.update(key_index(pairs, key), (key, value))
    } else {
        pairs.push((key, value))
    }
}

/// The map that a sequence of pairs stands for. Where a key occurs more than
/// once, its last value counts.
pub open spec fn as_map(pairs: Seq<Pair>) -> Map<Seq<char>, Seq<char>>
    decreases pairs.len(),
{
    if pairs.len() == 0 {
        Map::empty()
    } else {
        as_map(pairs.drop_last()).insert(pairs.last().0, pairs.last().1)
    }
}

/// The pairs that remain when a sequence is put into an empty mapping pair
/// by pair, from the first to the last.
pub open spec fn collected(pairs: Seq<Pair>) -> Seq<Pair>
    decreases pairs.len(),
{
    if pairs.len() == 0 {
        Seq::empty()
    } else {
        put(collected(pairs.drop_last()), pairs.last().0, pairs.last().1)
    }
}

/// The keys of the map are the keys of the pairs.
pub proof fn lemma_as_map_keys(pairs: Seq<Pair>)
    ensures
        forall|key: Seq<char>| #[trigger] as_map(pairs).contains_key(key) <==> has_key(pairs, key),
    decreases pairs.len(),
{
    if pairs.len() > 0 {
        let front = pairs.drop_last();
        lemma_as_map_keys(front);
        let last = pairs.len() - 1;
        assert forall|key: Seq<char>| #[trigger]
            as_map(pairs).contains_key(key) <==> has_key(pairs, key) by {
            assert(as_map(pairs).contains_key(key) <==> (key == pairs[last].0 || as_map(
                front,
            ).contains_key(key)));
            assert(as_map(front).contains_key(key) <==> has_key(front, key));
            if has_key(pairs, key) {
                let i = key_index(pairs, key);
                if i < last {
                    assert(front[i].0 == key);
                }
                assert(key == pairs[last].0 || has_key(front, key));
            }
            if has_key(front, key) {
                let i = key_index(front, key);
                assert(pairs[i].0 == key);
                assert(has_key(pairs, key));
            }
            if pairs[last].0 == key {
                assert(has_key(pairs, key));
            }
        }
    }
}

/// Where no key occurs twice, the map gives every key the value beside it,
/// and has as many keys as there are pairs.
pub proof fn lemma_as_map_values(pairs: Seq<Pair>)
    requires
        distinct_keys(pairs),
    ensures
        forall|i: int|
            0 <= i < pairs.len() ==> as_map(pairs).contains_key((#[trigger] pairs[i]).0)
                && as_map(pairs)[pairs[i].0] == pairs[i].1,
        as_map(pairs).dom().finite(),
        as_map(pairs).len() == pairs.len(),
    decreases pairs.len(),
{
    if pairs.len() > 0 {
        let front = pairs.drop_last();
        let last = pairs.len() - 1;
        assert forall|i: int, j: int| 0 <= i < j < front.len() implies (#[trigger] front[i]).0 != (
        #[trigger] front[j]).0 by {
            assert(pairs[i].0 != pairs[j].0);
        }
        lemma_as_map_values(front);
        lemma_as_map_keys(front);
        if has_key(front, pairs.last().0) {
            let i = key_index(front, pairs.last().0);
            assert(pairs[i].0 != pairs[last].0);
        }
        assert forall|i: int| 0 <= i < pairs.len() implies as_map(pairs).contains_key(
            (#[trigger] pairs[i]).0,
        ) && as_map(pairs)[pairs[i].0] == pairs[i].1 by {
            if i < last {
                assert(front[i] == pairs[i]);
                assert(pairs[i].0 != pairs[last].0);
            }
        }
    }
}

/// Every value of the map that pairs stand for is the value of one of the
/// pairs with that key.
pub proof fn lemma_last_value(pairs: Seq<Pair>)
    ensures
        forall|key: Seq<char>| #[trigger]
            as_map(pairs).contains_key(key) ==> exists|i: int|
                0 <= i < pairs.len() && (#[trigger] pairs[i]).0 == key && pairs[i].1 == as_map(
                    pairs,
                )[key],
    decreases pairs.len(),
{
    if pairs.len() > 0 {
        let front = pairs.drop_last();
        let last = pairs.len() - 1;
        lemma_last_value(front);
        assert forall|key: Seq<char>| #[trigger] as_map(pairs).contains_key(key) implies exists|
            i: int,
        |
            0 <= i < pairs.len() && (#[trigger] pairs[i]).0 == key && pairs[i].1 == as_map(
                pairs,
            )[key] by {
            if key == pairs[last].0 {
                assert(pairs[last].0 == key && pairs[last].1 == as_map(pairs)[key]);
            } else {
                assert(as_map(front).contains_key(key));
                let i = choose|i: int|
                    0 <= i < front.len() && (#[trigger] front[i]).0 == key && front[i].1 == as_map(
                        front,
                    )[key];
                assert(pairs[i].0 == key && pairs[i].1 == as_map(pairs)[key]);
            }
        }
    }
}

/// Putting a key keeps the keys distinct and inserts into the map.
pub proof fn lemma_put(pairs: Seq<Pair>, key: Seq<char>, value: Seq<char>)
    requires
        distinct_keys(pairs),
    ensures
        distinct_keys(put(pairs, key, value)),
        as_map(put(pairs, key, value)) == as_map(pairs).insert(key, value),
{
    let after = put(pairs, key, value);
    if has_key(pairs, key) {
        let at = key_index(pairs, key);
        assert forall|i: int, j: int| 0 <= i < j < after.len() implies (#[trigger] after[i]).0 != (
        #[trigger] after[j]).0 by {
            assert(pairs[i].0 != pairs[j].0);
        }
        lemma_as_map_keys(pairs);
        lemma_as_map_keys(after);
        lemma_as_map_values(pairs);
        lemma_as_map_values(after);
        let wanted = as_map(pairs).insert(key, value);
        assert forall|k: Seq<char>| #[trigger] as_map(after).contains_key(k) <==> wanted.contains_key(
            k,
        ) by {
            if has_key(after, k) {
                let i = key_index(after, k);
                if i != at {
                    assert(pairs[i].0 == k);
                }
            }
            if has_key(pairs, k) {
                let i = key_index(pairs, k);
                assert(after[i].0 == k);
            }
            assert(after[at].0 == key);
        }
        assert forall|k: Seq<char>| #[trigger] as_map(after).contains_key(k) implies as_map(after)[k]
            == wanted[k] by {
            let i = key_index(after, k);
            assert(as_map(after)[after[i].0] == after[i].1);
            if i != at {
                assert(pairs[i].0 == k);
                assert(pairs[i].0 != pairs[at].0);
                assert(as_map(pairs)[pairs[i].0] == pairs[i].1);
            }
        }
        assert(as_map(after) =~= wanted);
    } else {
        assert(after.drop_last() =~= pairs);
        assert forall|i: int, j: int| 0 <= i < j < after.len() implies (#[trigger] after[i]).0 != (
        #[trigger] after[j]).0 by {
            if j < pairs.len() {
                assert(pairs[i].0 != pairs[j].0);
            } else {
                assert(pairs[i].0 != key);
            }
        }
    }
}

/// Collecting pairs leaves no key twice and keeps the map they stand for.
pub proof fn lemma_collected(pairs: Seq<Pair>)
    ensures
        distinct_keys(collected(pairs)),
        as_map(collected(pairs)) == as_map(pairs),
    decreases pairs.len(),
{
    if pairs.len() > 0 {
        lemma_collected(pairs.drop_last());
        lemma_put(collected(pairs.drop_last()), pairs.last().0, pairs.last().1);
    }
}

/// Pairs whose keys are distinct already are what collecting them gives.
pub proof fn lemma_collected_distinct(pairs: Seq<Pair>)
    requires
        distinct_keys(pairs),
    ensures
        collected(pairs) == pairs,
    decreases pairs.len(),
{
    if pairs.len() > 0 {
        let front = pairs.drop_last();
        let last = pairs.len() - 1;
        assert forall|i: int, j: int| 0 <= i < j < front.len() implies (#[trigger] front[i]).0 != (
        #[trigger] front[j]).0 by {
            assert(pairs[i].0 != pairs[j].0);
        }
        lemma_collected_distinct(front);
        if has_key(front, pairs.last().0) {
            let i = key_index(front, pairs.last().0);
            assert(pairs[i].0 != pairs[last].0);
        }
        assert(front.push(pairs.last()) =~= pairs);
    }
}

/// The position of `key` among the entries, if it is there.
fn find(entries: &Vec<(String, String)>, key: &String) -> (found: Option<usize>)
    ensures
        match found {
            Some(i) => i < entries.len() && entries[i as int].0@ == key@,
            None => !has_key(pairs_of(entries@), key@),
        },
{
    let mut i: usize = 0;
    while i < entries.len()
        invariant
            i <= entries.len(),
            forall|j: int| 0 <= j < i ==> (#[trigger] pairs_of(entries@)[j]).0 != key@,
        decreases entries.len() - i,
    {
        if entries[i].0 == *key {
            return Some(i);
        }
        i += 1;
    }
    None
}

/// A mapping from text keys to text values. Every key occurs once; the pairs
/// keep the order in which their keys were first inserted.
#[derive(Debug)]
pub struct Mapping {
    entries: Vec<(String, String)>,
}

impl View for Mapping {
    type V = Map<Seq<char>, Seq<char>>;

    open spec fn view(&self) -> Map<Seq<char>, Seq<char>> {
        as_map(self.pairs())
    }
}

impl Mapping {
    /// The pairs of the mapping, in insertion order.
    pub closed spec fn pairs(&self) -> Seq<Pair> {
        pairs_of(self.entries@)
    }

    #[verifier::type_invariant]
    spec fn keys_occur_once(&self) -> bool {
        distinct_keys(self.pairs())
    }

    /// The empty mapping.
    pub fn new() -> (mapping: Self)
        ensures
            mapping.pairs() == Seq::<Pair>::empty(),
            mapping@ == Map::<Seq<char>, Seq<char>>::empty(),
    {
        let mapping = Mapping { entries: Vec::new() };
        assert(mapping.pairs() =~= Seq::<Pair>::empty());
        mapping
    }

    /// The number of keys.
    pub fn len(&self) -> (count: usize)
        ensures
            count == self.pairs().len(),
            count == self@.len(),
    {
        proof {
            use_type_invariant(&*self);
            lemma_as_map_values(self.pairs());
        }
        self.entries.len()
    }

    /// The value stored under `key`, if the key is there.
    pub fn get(&self, key: &str) -> (value: Option<&String>)
        ensures
            match value {
                Some(text) => self@.contains_key(key@) && text@ == self@[key@],
                None => !self@.contains_key(key@),
            },
    {
        proof {
            use_type_invariant(&*self);
            lemma_as_map_keys(self.pairs());
            lemma_as_map_values(self.pairs());
        }
        let owned = key.to_owned();
        match find(&self.entries, &owned) {
            Some(i) => {
                assert(self.pairs()[i as int].0 == key@);
                Some(&self.entries[i].1)
            },
            None => None,
        }
    }

    /// Stores `value` under `key`. A key that is already there keeps its
    /// place among the pairs and takes the new value; a new key goes to the
    /// end.
    pub fn insert(&mut self, key: String, value: String)
        ensures
            final(self).pairs() == put(old(self).pairs(), key@, value@),
            final(self)@ == old(self)@.insert(key@, value@),
    {
        proof {
            use_type_invariant(&*self);
            lemma_put(self.pairs(), key@, value@);
        }
        let ghost before = self.pairs();
        let mut entries: Vec<(String, String)> = Vec::new();
        std::mem::swap(&mut entries, &mut self.entries);
        match find(&entries, &key) {
            Some(i) => {
                proof {
                    assert(before[i as int].0 == key@);
                    assert forall|j: int| 0 <= j < before.len() && (#[trigger] before[j]).0
                        == key@ implies j == i by {
                        if j < i {
                            assert(before[j].0 != before[i as int].0);
                        } else if i < j {
                            assert(before[i as int].0 != before[j].0);
                        }
                    }
                    assert(key_index(before, key@) == i);
                }
                entries.set(i, (key, value));
            },
            None => {
                entries.push((key, value));
            },
        }
        assert(pairs_of(entries@) =~= put(before, key@, value@));
        self.entries = entries;
    }

    /// The mapping that results from inserting the given pairs one after
    /// another. Of pairs with the same key, the last one gives the value.
    pub fn from_pairs(pairs: &Vec<(String, String)>) -> (mapping: Self)
        ensures
            mapping.pairs() == collected(pairs_of(pairs@)),
            mapping@ == as_map(pairs_of(pairs@)),
    {
        let mut mapping = Mapping::new();
        let mut i: usize = 0;
        while i < pairs.len()
            invariant
                i <= pairs.len(),
                mapping.pairs() == collected(pairs_of(pairs@).take(i as int)),
            decreases pairs.len() - i,
        {
            let ghost seen = pairs_of(pairs@).take(i as int + 1);
            assert(seen.drop_last() =~= pairs_of(pairs@).take(i as int));
            mapping.insert(pairs[i].0.clone(), pairs[i].1.clone());
            i += 1;
        }
        proof {
            assert(pairs_of(pairs@).take(i as int) =~= pairs_of(pairs@));
            lemma_collected(pairs_of(pairs@));
        }
        mapping
    }

    /// The pairs of the mapping, in insertion order. No key occurs twice.
    pub fn entries(&self) -> (entries: &Vec<(String, String)>)
        ensures
            pairs_of(entries@) == self.pairs(),
            distinct_keys(self.pairs()),
    {
        proof {
            use_type_invariant(&*self);
        }
        &self.entries
    }
}

} // verus!
