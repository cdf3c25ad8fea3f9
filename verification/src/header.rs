//! The header of a document: a finite map from key text to value text.
use vstd::prelude::*;
use vstd::std_specs::cmp::PartialEqSpecImpl;

verus! {

/// The entries of a document header. No key occurs twice; a key that is
/// inserted again gets the new value.
#[derive(Debug)]
pub struct Header {
    entries: Vec<(String, String)>,
}

/// No two entries have keys with the same text.
pub open spec fn distinct_keys(entries: Seq<(String, String)>) -> bool {
    forall|i: int, j: int|
        0 <= i < j < entries.len() ==> (#[trigger] entries[i]).0@ != (#[trigger] entries[j]).0@
}

/// Some entry has the key `key`.
pub open spec fn has_key(entries: Seq<(String, String)>, key: Seq<char>) -> bool {
    exists|i: int| 0 <= i < entries.len() && (#[trigger] entries[i]).0@ == key
}

/// The map that the entries stand for.
pub open spec fn map_of(entries: Seq<(String, String)>) -> Map<Seq<char>, Seq<char>> {
    Map::new(
        |key: Seq<char>| has_key(entries, key),
        |key: Seq<char>|
            entries[choose|i: int| 0 <= i < entries.len() && (#[trigger] entries[i]).0@ == key].1@,
    )
}

/// With distinct keys, every entry is found under its own key.
pub proof fn lemma_map_of_entry(entries: Seq<(String, String)>, i: int)
    requires
        distinct_keys(entries),
        0 <= i < entries.len(),
    ensures
        map_of(entries).contains_key(entries[i].0@),
        map_of(entries)[entries[i].0@] == entries[i].1@,
{
    let key = entries[i].0@;
    let j = choose|j: int| 0 <= j < entries.len() && (#[trigger] entries[j]).0@ == key;
    assert(j == i) by {
        if j < i {
            assert(entries[j].0@ != entries[i].0@);
        }
        if i < j {
            assert(entries[i].0@ != entries[j].0@);
        }
    }
}

/// Adding an entry with a new key inserts it into the map.
pub proof fn lemma_map_of_push(entries: Seq<(String, String)>, entry: (String, String))
    requires
        distinct_keys(entries),
        !has_key(entries, entry.0@),
    ensures
        distinct_keys(entries.push(entry)),
        map_of(entries.push(entry)) == map_of(entries).insert(entry.0@, entry.1@),
{
    let more = entries.push(entry);
    assert forall|i: int, j: int| 0 <= i < j < more.len() implies (#[trigger] more[i]).0@ != (
    #[trigger] more[j]).0@ by {
        if j < entries.len() {
            assert(entries[i].0@ != entries[j].0@);
        } else {
            assert(entries[i].0@ != entry.0@);
        }
    }
    let grown = map_of(entries).insert(entry.0@, entry.1@);
    assert forall|key: Seq<char>| map_of(more).contains_key(key) <==> grown.contains_key(
        key,
    ) by {
        if has_key(more, key) {
            let i = choose|i: int| 0 <= i < more.len() && (#[trigger] more[i]).0@ == key;
            if i < entries.len() {
                assert(entries[i].0@ == key);
            }
        }
        if has_key(entries, key) {
            let i = choose|i: int| 0 <= i < entries.len() && (#[trigger] entries[i]).0@ == key;
            assert(more[i].0@ == key);
        }
        if key == entry.0@ {
            assert(more[entries.len() as int].0@ == key);
        }
    }
    assert forall|key: Seq<char>| map_of(more).contains_key(key) implies map_of(more)[key]
        == grown[key] by {
        let i = choose|i: int| 0 <= i < more.len() && (#[trigger] more[i]).0@ == key;
        lemma_map_of_entry(more, i);
        if i < entries.len() {
            assert(entries[i].0@ == key);
            lemma_map_of_entry(entries, i);
        }
    }
    assert(map_of(more) =~= grown);
}

/// Giving the entry at `at` a new value, under a key of the same text,
/// updates the map at that key.
pub proof fn lemma_map_of_update(
    entries: Seq<(String, String)>,
    at: int,
    entry: (String, String),
)
    requires
        distinct_keys(entries),
        0 <= at < entries.len(),
        entries[at].0@ == entry.0@,
    ensures
        distinct_keys(entries.update(at, entry)),
        map_of(entries.update(at, entry)) == map_of(entries).insert(entry.0@, entry.1@),
{
    let changed = entries.update(at, entry);
    assert forall|i: int, j: int| 0 <= i < j < changed.len() implies (#[trigger] changed[i]).0@
        != (#[trigger] changed[j]).0@ by {
        assert(changed[i].0@ == entries[i].0@);
        assert(changed[j].0@ == entries[j].0@);
        assert(entries[i].0@ != entries[j].0@);
    }
    let grown = map_of(entries).insert(entry.0@, entry.1@);
    assert forall|key: Seq<char>| map_of(changed).contains_key(key) <==> grown.contains_key(
        key,
    ) by {
        if has_key(changed, key) {
            let i = choose|i: int| 0 <= i < changed.len() && (#[trigger] changed[i]).0@ == key;
            assert(entries[i].0@ == key);
        }
        if has_key(entries, key) {
            let i = choose|i: int| 0 <= i < entries.len() && (#[trigger] entries[i]).0@ == key;
            assert(changed[i].0@ == key);
        }
        if key == entry.0@ {
            assert(changed[at].0@ == key);
        }
    }
    assert forall|key: Seq<char>| map_of(changed).contains_key(key) implies map_of(changed)[key]
        == grown[key] by {
        let i = choose|i: int| 0 <= i < changed.len() && (#[trigger] changed[i]).0@ == key;
        lemma_map_of_entry(changed, i);
        if i != at {
            assert(entries[i].0@ == key);
            assert(entries[i].0@ != entries[at].0@) by {
                if i < at {
                    assert(entries[i].0@ != entries[at].0@);
                } else {
                    assert(entries[at].0@ != entries[i].0@);
                }
            }
            lemma_map_of_entry(entries, i);
        }
    }
    assert(map_of(changed) =~= grown);
}

/// The map that results from inserting `pairs` one after the other into an
/// empty map: of two pairs with the same key, the later one stays.
pub open spec fn pairs_map(pairs: Seq<(String, String)>) -> Map<Seq<char>, Seq<char>>
    decreases pairs.len(),
{
    if pairs.len() == 0 {
        Map::empty()
    } else {
        pairs_map(pairs.drop_last()).insert(pairs.last().0@, pairs.last().1@)
    }
}

impl View for Header {
    type V = Map<Seq<char>, Seq<char>>;

    closed spec fn view(&self) -> Map<Seq<char>, Seq<char>> {
        map_of(self.entries@)
    }
}

impl Header {
    #[verifier::type_invariant]
    spec fn well_formed(self) -> bool {
        distinct_keys(self.entries@)
    }

    /// A header without entries.
    pub fn new() -> (header: Self)
        ensures
            header@ == Map::<Seq<char>, Seq<char>>::empty(),
    {
        let header = Header { entries: Vec::new() };
        assert(header@ =~= Map::<Seq<char>, Seq<char>>::empty());
        header
    }

    /// Where the entry for `key` stands, if there is one.
    fn index_of(&self, key: &String) -> (at: Option<usize>)
        ensures
            match at {
                Some(i) => i < self.entries@.len() && self.entries@[i as int].0@ == key@,
                None => !has_key(self.entries@, key@),
            },
    {
        let mut i: usize = 0;
        while i < self.entries.len()
            invariant
                i <= self.entries@.len(),
                forall|j: int| 0 <= j < i ==> (#[trigger] self.entries@[j]).0@ != key@,
            decreases self.entries@.len() - i,
        {
            if self.entries[i].0 == *key {
                return Some(i);
            }
            i += 1;
        }
        None
    }

    /// Whether the header has no entry.
    pub fn is_empty(&self) -> (empty: bool)
        ensures
            empty == self@.is_empty(),
    {
        let empty = self.entries.len() == 0;
        proof {
            if !empty {
                assert(self.entries@[0].0@ == self.entries@[0].0@);
                assert(has_key(self.entries@, self.entries@[0].0@));
                assert(self@.dom().contains(self.entries@[0].0@));
            } else {
                assert(self@.dom() =~= Set::<Seq<char>>::empty());
            }
        }
        empty
    }

    /// The value under `key`, if the header has that key.
    pub fn get(&self, key: &str) -> (value: Option<&String>)
        ensures
            match value {
                Some(v) => self@.contains_key(key@) && self@[key@] == v@,
                None => !self@.contains_key(key@),
            },
    {
        proof {
            use_type_invariant(self);
        }
        let owned = key.to_owned();
        match self.index_of(&owned) {
            Some(i) => {
                proof {
                    lemma_map_of_entry(self.entries@, i as int);
                }
                Some(&self.entries[i].1)
            },
            None => None,
        }
    }

    /// Puts `value` under `key`, in place of the value that was there, if
    /// any.
    pub fn insert(&mut self, key: String, value: String)
        ensures
            final(self)@ == old(self)@.insert(key@, value@),
    {
        proof {
            use_type_invariant(&*self);
        }
        let at = self.index_of(&key);
        let mut entries: Vec<(String, String)> = Vec::new();
        std::mem::swap(&mut entries, &mut self.entries);
        match at {
            Some(i) => {
                proof {
                    lemma_map_of_update(entries@, i as int, (key, value));
                }
                entries.set(i, (key, value));
            },
            None => {
                proof {
                    lemma_map_of_push(entries@, (key, value));
                }
                entries.push((key, value));
            },
        }
        self.entries = entries;
    }

    /// The header that holds `pairs`, inserted in the order given.
    pub fn from_pairs(pairs: Vec<(String, String)>) -> (header: Self)
        ensures
            header@ == pairs_map(pairs@),
    {
        let mut header = Header::new();
        let ghost all = pairs@;
        for pair in it: pairs
            invariant
                it.seq() == all,
                header@ == pairs_map(all.take(it.index())),
        {
            proof {
                assert(all.take(it.index() + 1).drop_last() =~= all.take(it.index()));
            }
            header.insert(pair.0, pair.1);
        }
        proof {
            assert(all.take(all.len() as int) =~= all);
        }
        header
    }

    /// Whether every entry of `self` is an entry of `other`.
    fn within(&self, other: &Header) -> (yes: bool)
        ensures
            yes == self@.submap_of(other@),
    {
        proof {
            use_type_invariant(self);
        }
        let mut i: usize = 0;
        while i < self.entries.len()
            invariant
                i <= self.entries@.len(),
                distinct_keys(self.entries@),
                forall|j: int|
                    0 <= j < i ==> other@.contains_key((#[trigger] self.entries@[j]).0@)
                        && other@[self.entries@[j].0@] == self.entries@[j].1@,
            decreases self.entries@.len() - i,
        {
            proof {
                lemma_map_of_entry(self.entries@, i as int);
            }
            match other.get(self.entries[i].0.as_str()) {
                Some(value) => {
                    if !(*value == self.entries[i].1) {
                        return false;
                    }
                },
                None => {
                    return false;
                },
            }
            i += 1;
        }
        proof {
            assert forall|key: Seq<char>| #[trigger] self@.dom().contains(key) implies other@.dom().contains(
                key,
            ) && self@[key] == other@[key] by {
                let j = choose|j: int|
                    0 <= j < self.entries@.len() && (#[trigger] self.entries@[j]).0@ == key;
                lemma_map_of_entry(self.entries@, j);
            }
        }
        true
    }
}

impl PartialEq for Header {
    /// Two headers are equal when they hold the same keys with the same
    /// values, in whatever order the entries were inserted.
    fn eq(&self, other: &Self) -> (equal: bool) {
        let equal = self.within(other) && other.within(self);
        proof {
            if self@.submap_of(other@) && other@.submap_of(self@) {
                assert(self@ =~= other@);
            }
        }
        equal
    }
}

impl PartialEqSpecImpl for Header {
    open spec fn obeys_eq_spec() -> bool {
        true
    }

    open spec fn eq_spec(&self, other: &Self) -> bool {
        self@ == other@
    }
}

impl Eq for Header {

}

} // verus!
