use vstd::prelude::*;
use vstd::set_lib::lemma_subset_equality;
use vstd::std_specs::cmp::PartialEqSpecImpl;
use crate::text::same_text;

verus! {

/// The mapping that a sequence of `(key, value)` pairs builds when the pairs
/// are inserted one after the other: a later pair replaces an earlier one
/// with the same key.
pub open spec fn pairs_to_map(pairs: Seq<(Seq<char>, Seq<char>)>) -> Map<Seq<char>, Seq<char>>
    decreases pairs.len(),
{
    if pairs.len() == 0 {
        Map::empty()
    } else {
        pairs_to_map(pairs.drop_last()).insert(pairs.last().0, pairs.last().1)
    }
}

/// The attributes of one tag: a mapping from key to value, both text. Keys
/// are case-sensitive and occur once.
#[derive(Debug)]
pub struct Attributes {
    entries: Vec<(String, String)>,
}

/// Key and value of each entry as text, in the order of insertion.
spec fn entry_texts(entries: Seq<(String, String)>) -> Seq<(Seq<char>, Seq<char>)> {
    entries.map_values(|e: (String, String)| (e.0@, e.1@))
}

/// Whether no key occurs in two of the pairs.
pub open spec fn has_distinct_keys(pairs: Seq<(Seq<char>, Seq<char>)>) -> bool {
    forall|i: int, j: int| 0 <= i < j < pairs.len() ==> pairs[i].0 != pairs[j].0
}

/// A pair that no later pair replaces is in the mapping, with its value.
pub proof fn lemma_last_pair_wins(pairs: Seq<(Seq<char>, Seq<char>)>, i: int)
    requires
        0 <= i < pairs.len(),
        forall|j: int| i < j < pairs.len() ==> pairs[j].0 != pairs[i].0,
    ensures
        pairs_to_map(pairs).contains_key(pairs[i].0),
        pairs_to_map(pairs)[pairs[i].0] == pairs[i].1,
    decreases pairs.len(),
{
    if i < pairs.len() - 1 {
        let init = pairs.drop_last();
        assert(init[i] == pairs[i]);
        assert forall|j: int| i < j < init.len() implies init[j].0 != init[i].0 by {
            assert(init[j] == pairs[j]);
        }
        lemma_last_pair_wins(init, i);
        assert(pairs.last().0 != pairs[i].0);
    }
}

/// Pairs with distinct keys make a mapping with as many entries, each pair
/// under its key, and with no other key.
pub proof fn lemma_pairs_to_map_lookup(pairs: Seq<(Seq<char>, Seq<char>)>)
    requires
        has_distinct_keys(pairs),
    ensures
        pairs_to_map(pairs).dom().finite(),
        pairs_to_map(pairs).dom().len() == pairs.len(),
        forall|i: int|
            0 <= i < pairs.len() ==> pairs_to_map(pairs).contains_key(#[trigger] pairs[i].0)
                && pairs_to_map(pairs)[pairs[i].0] == pairs[i].1,
        forall|k: Seq<char>|
            pairs_to_map(pairs).contains_key(k) ==> exists|i: int|
                0 <= i < pairs.len() && #[trigger] pairs[i].0 == k,
    decreases pairs.len(),
{
    if pairs.len() > 0 {
        let init = pairs.drop_last();
        lemma_pairs_to_map_lookup(init);
        let m = pairs_to_map(init);
        assert(!m.contains_key(pairs.last().0)) by {
            if m.contains_key(pairs.last().0) {
                let i = choose|i: int| 0 <= i < init.len() && #[trigger] init[i].0 == pairs.last().0;
                assert(pairs[i].0 == pairs[pairs.len() - 1].0);
            }
        }
        assert forall|i: int| 0 <= i < pairs.len() implies pairs_to_map(pairs).contains_key(
            #[trigger] pairs[i].0,
        ) && pairs_to_map(pairs)[pairs[i].0] == pairs[i].1 by {
            if i < init.len() {
                assert(init[i] == pairs[i]);
            }
        }
        assert forall|k: Seq<char>| pairs_to_map(pairs).contains_key(k) implies exists|i: int|
            0 <= i < pairs.len() && #[trigger] pairs[i].0 == k by {
            if k == pairs.last().0 {
                assert(pairs[pairs.len() - 1].0 == k);
            } else {
                let i = choose|i: int| 0 <= i < init.len() && #[trigger] init[i].0 == k;
                assert(pairs[i].0 == k);
            }
        }
    }
}

/// The index of the entry stored under `key`, if there is one.
fn find_key(entries: &Vec<(String, String)>, key: &str) -> (r: Option<usize>)
    ensures
        match r {
            Some(i) => i < entries@.len() && entries@[i as int].0@ == key@,
            None => forall|i: int| 0 <= i < entries@.len() ==> entries@[i].0@ != key@,
        },
{
    let mut i: usize = 0;
    while i < entries.len()
        invariant
            i <= entries@.len(),
            forall|j: int| 0 <= j < i ==> entries@[j].0@ != key@,
        decreases entries@.len() - i,
    {
        if same_text(entries[i].0.as_str(), key) {
            return Some(i);
        }
        i += 1;
    }
    None
}

impl View for Attributes {
    type V = Map<Seq<char>, Seq<char>>;

    closed spec fn view(&self) -> Map<Seq<char>, Seq<char>> {
        pairs_to_map(entry_texts(self.entries@))
    }
}

impl Attributes {
    #[verifier::type_invariant]
    spec fn keys_occur_once(self) -> bool {
        has_distinct_keys(entry_texts(self.entries@))
    }

    /// A mapping without entries.
    pub fn new() -> (r: Self)
        ensures
            r@ == Map::<Seq<char>, Seq<char>>::empty(),
    {
        Attributes { entries: Vec::new() }
    }

    /// The number of entries.
    pub fn len(&self) -> (n: usize)
        ensures
            self@.dom().finite(),
            n == self@.dom().len(),
    {
        proof {
            use_type_invariant(self);
            lemma_pairs_to_map_lookup(entry_texts(self.entries@));
        }
        self.entries.len()
    }

    /// Whether the mapping has no entry.
    pub fn is_empty(&self) -> (r: bool)
        ensures
            r == (self@ == Map::<Seq<char>, Seq<char>>::empty()),
    {
        proof {
            use_type_invariant(self);
            lemma_pairs_to_map_lookup(entry_texts(self.entries@));
        }
        self.entries.len() == 0
    }

    /// The value stored under `key`, if there is one.
    pub fn get(&self, key: &str) -> (r: Option<&String>)
        ensures
            match r {
                Some(v) => self@.contains_key(key@) && v@ == self@[key@],
                None => !self@.contains_key(key@),
            },
    {
        proof {
            use_type_invariant(self);
            lemma_pairs_to_map_lookup(entry_texts(self.entries@));
        }
        match find_key(&self.entries, key) {
            Some(i) => {
                assert(entry_texts(self.entries@)[i as int].0 == key@);
                Some(&self.entries[i].1)
            },
            None => {
                assert forall|i: int| 0 <= i < self.entries@.len() implies entry_texts(
                    self.entries@,
                )[i].0 != key@ by {}
                None
            },
        }
    }

    /// Stores `value` under `key`. An entry that was there under the same key
    /// is replaced, and its value handed back.
    pub fn insert(&mut self, key: String, value: String) -> (r: Option<String>)
        ensures
            final(self)@ == old(self)@.insert(key@, value@),
            match r {
                Some(v) => old(self)@.contains_key(key@) && v@ == old(self)@[key@],
                None => !old(self)@.contains_key(key@),
            },
    {
        proof {
            use_type_invariant(&*self);
        }
        let mut entries: Vec<(String, String)> = Vec::new();
        core::mem::swap(&mut self.entries, &mut entries);
        let ghost before = entry_texts(entries@);
        proof {
            lemma_pairs_to_map_lookup(before);
        }
        let r = match find_key(&entries, key.as_str()) {
            Some(i) => {
                assert(before[i as int].0 == key@);
                let previous = entries.remove(i);
                entries.push((key, value));
                proof {
                    let after = entry_texts(entries@);
                    let removed = before.remove(i as int);
                    assert(after =~= removed.push((key@, value@)));
                    assert(has_distinct_keys(removed));
                    assert(after.drop_last() =~= removed);
                    assert(has_distinct_keys(after));
                    lemma_pairs_to_map_lookup(removed);
                    lemma_pairs_to_map_lookup(after);
                    assert(pairs_to_map(after) == pairs_to_map(removed).insert(key@, value@));
                    assert(pairs_to_map(removed) =~= pairs_to_map(before).remove(key@)) by {
                        assert forall|k: Seq<char>|
                            pairs_to_map(removed).contains_key(k) <==> (pairs_to_map(
                                before,
                            ).contains_key(k) && k != key@) by {
                            if pairs_to_map(removed).contains_key(k) {
                                let j = choose|j: int|
                                    0 <= j < removed.len() && #[trigger] removed[j].0 == k;
                                if j < i {
                                    assert(before[j].0 == k);
                                } else {
                                    assert(before[j + 1].0 == k);
                                }
                            }
                            if pairs_to_map(before).contains_key(k) && k != key@ {
                                let j = choose|j: int|
                                    0 <= j < before.len() && #[trigger] before[j].0 == k;
                                if j < i {
                                    assert(removed[j].0 == k);
                                } else {
                                    assert(removed[j - 1].0 == k);
                                }
                            }
                        }
                        assert forall|k: Seq<char>|
                            pairs_to_map(removed).contains_key(k) implies pairs_to_map(removed)[k]
                            == pairs_to_map(before)[k] by {
                            let j = choose|j: int|
                                0 <= j < removed.len() && #[trigger] removed[j].0 == k;
                            if j < i {
                                assert(before[j].0 == k);
                            } else {
                                assert(before[j + 1].0 == k);
                            }
                        }
                    }
                    assert(pairs_to_map(before).remove(key@).insert(key@, value@) =~= pairs_to_map(
                        before,
                    ).insert(key@, value@));
                }
                Some(previous.1)
            },
            None => {
                assert forall|j: int| 0 <= j < before.len() implies before[j].0 != key@ by {}
                entries.push((key, value));
                proof {
                    let after = entry_texts(entries@);
                    assert(after =~= before.push((key@, value@)));
                    assert(after.drop_last() =~= before);
                }
                None
            },
        };
        self.entries = entries;
        r
    }
}

/// Two mappings are equal where they hold the same entries, in whatever
/// order these were inserted.
impl PartialEqSpecImpl for Attributes {
    open spec fn obeys_eq_spec() -> bool {
        true
    }

    open spec fn eq_spec(&self, other: &Attributes) -> bool {
        self@ == other@
    }
}

impl PartialEq for Attributes {
    #[verifier::loop_isolation(false)]
    fn eq(&self, other: &Attributes) -> (r: bool) {
        proof {
            use_type_invariant(self);
            use_type_invariant(other);
            lemma_pairs_to_map_lookup(entry_texts(self.entries@));
            lemma_pairs_to_map_lookup(entry_texts(other.entries@));
        }
        if self.entries.len() != other.entries.len() {
            return false;
        }
        let ghost mine = entry_texts(self.entries@);
        let mut i: usize = 0;
        while i < self.entries.len()
            invariant
                i <= self.entries@.len(),
                mine == entry_texts(self.entries@),
                forall|j: int|
                    0 <= j < i ==> other@.contains_key(#[trigger] mine[j].0) && other@[mine[j].0]
                        == mine[j].1,
            decreases self.entries@.len() - i,
        {
            assert(mine[i as int].0 == self.entries@[i as int].0@);
            match other.get(self.entries[i].0.as_str()) {
                None => {
                    assert(self@.contains_key(mine[i as int].0));
                    return false;
                },
                Some(value) => {
                    if !same_text(value.as_str(), self.entries[i].1.as_str()) {
                        assert(self@[mine[i as int].0] == mine[i as int].1);
                        return false;
                    }
                },
            }
            i += 1;
        }
        proof {
            assert(self@.dom().subset_of(other@.dom())) by {
                assert forall|k: Seq<char>| self@.dom().contains(k) implies other@.dom().contains(
                    k,
                ) by {
                    let j = choose|j: int| 0 <= j < mine.len() && #[trigger] mine[j].0 == k;
                    assert(other@.contains_key(mine[j].0));
                }
            }
            lemma_subset_equality(self@.dom(), other@.dom());
            assert forall|k: Seq<char>| self@.dom().contains(k) implies self@[k] == other@[k] by {
                let j = choose|j: int| 0 <= j < mine.len() && #[trigger] mine[j].0 == k;
                assert(other@[mine[j].0] == mine[j].1);
            }
            assert(self@ =~= other@);
        }
        true
    }
}

} // verus!
