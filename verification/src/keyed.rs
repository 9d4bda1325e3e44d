//! A map from strings to values.
use crate::text::same_text;
use vstd::prelude::*;

verus! {

/// A map from strings to values: requests to whoever waits for their answer,
/// or servers to their handles.
pub struct KeyedMap<T> {
    entries: Vec<(String, T)>,
}

/// The map of a run of entries; the last of a key counts.
pub open spec fn entries_map<T>(s: Seq<(String, T)>) -> Map<Seq<char>, T>
    decreases s.len(),
{
    if s.len() == 0 {
        Map::empty()
    } else {
        entries_map(s.drop_last()).insert(s.last().0@, s.last().1)
    }
}

/// Whether no key occurs twice.
pub open spec fn keys_distinct<T>(s: Seq<(String, T)>) -> bool {
    forall|i: int, j: int|
        0 <= i < j < s.len() ==> (#[trigger] s[i]).0@ != (#[trigger] s[j]).0@
}

/// A key is in the map exactly where an entry has it.
pub proof fn lemma_entries_dom<T>(s: Seq<(String, T)>, key: Seq<char>)
    ensures
        entries_map(s).dom().contains(key) <==> exists|i: int|
            0 <= i < s.len() && (#[trigger] s[i]).0@ == key,
    decreases s.len(),
{
    if s.len() > 0 {
        lemma_entries_dom(s.drop_last(), key);
        if s.last().0@ == key {
            assert(s[s.len() - 1].0@ == key);
        }
        if exists|i: int| 0 <= i < s.drop_last().len() && (#[trigger] s.drop_last()[i]).0@ == key {
            let w = choose|w: int|
                0 <= w < s.drop_last().len() && (#[trigger] s.drop_last()[w]).0@ == key;
            assert(s[w].0@ == key);
        }
        if exists|i: int| 0 <= i < s.len() && (#[trigger] s[i]).0@ == key {
            let w = choose|w: int| 0 <= w < s.len() && (#[trigger] s[w]).0@ == key;
            if w < s.len() - 1 {
                assert(s.drop_last()[w].0@ == key);
            }
        }
    }
}

/// What an entry holds is the value of its key, and without it the key is
/// gone.
pub proof fn lemma_entries_remove<T>(s: Seq<(String, T)>, w: int)
    requires
        0 <= w < s.len(),
        keys_distinct(s),
    ensures
        entries_map(s.remove(w)) == entries_map(s).remove(s[w].0@),
        entries_map(s).dom().contains(s[w].0@),
        entries_map(s)[s[w].0@] == s[w].1,
        keys_distinct(s.remove(w)),
    decreases s.len(),
{
    let front = s.drop_last();
    if w == s.len() - 1 {
        assert(s.remove(w) =~= front);
        lemma_entries_dom(front, s[w].0@);
        assert(entries_map(front) =~= entries_map(s).remove(s[w].0@));
    } else {
        assert(keys_distinct(front));
        lemma_entries_remove(front, w);
        assert(s.remove(w).drop_last() =~= front.remove(w));
        assert(s.remove(w).last() == s.last());
        assert(s[w].0@ != s[s.len() - 1].0@);
        assert(entries_map(s.remove(w)) =~= entries_map(s).remove(s[w].0@));
    }
}

impl<T> KeyedMap<T> {
    /// The values by key.
    pub closed spec fn view(&self) -> Map<Seq<char>, T> {
        entries_map(self.entries@)
    }

    /// No key occurs twice.
    #[verifier::type_invariant]
    spec fn wf(self) -> bool {
        keys_distinct(self.entries@)
    }

    /// The empty map.
    pub fn new() -> (r: Self)
        ensures
            r@ == Map::<Seq<char>, T>::empty(),
    {
        KeyedMap { entries: Vec::new() }
    }

    /// Where a key stands.
    fn position(&self, key: &str) -> (r: Option<usize>)
        ensures
            match r {
                Some(i) => i < self.entries.len() && self.entries@[i as int].0@ == key@
                    && self@.dom().contains(key@),
                None => !self@.dom().contains(key@),
            },
    {
        let mut i: usize = 0;
        proof {
            lemma_entries_dom(self.entries@, key@);
        }
        while i < self.entries.len()
            invariant
                i <= self.entries.len(),
                self@.dom().contains(key@) <==> exists|k: int|
                    0 <= k < self.entries.len() && (#[trigger] self.entries@[k]).0@ == key@,
                forall|k: int| 0 <= k < i ==> (#[trigger] self.entries@[k]).0@ != key@,
            decreases self.entries.len() - i,
        {
            if same_text(self.entries[i].0.as_str(), key) {
                return Some(i);
            }
            i = i + 1;
        }
        None
    }

    /// Whether the map has a key.
    pub fn contains_key(&self, key: &str) -> (r: bool)
        ensures
            r == self@.dom().contains(key@),
    {
        self.position(key).is_some()
    }

    /// The value of a key.
    pub fn get(&self, key: &str) -> (r: Option<&T>)
        ensures
            match r {
                Some(t) => self@.dom().contains(key@) && *t == self@[key@],
                None => !self@.dom().contains(key@),
            },
    {
        proof {
            use_type_invariant(self);
        }
        match self.position(key) {
            Some(i) => {
                proof {
                    lemma_entries_remove(self.entries@, i as int);
                }
                Some(&self.entries[i].1)
            },
            None => None,
        }
    }

    /// Takes the value of a key out.
    pub fn remove(&mut self, key: &str) -> (r: Option<T>)
        ensures
            final(self)@ == old(self)@.remove(key@),
            match r {
                Some(t) => old(self)@.dom().contains(key@) && t == old(self)@[key@],
                None => !old(self)@.dom().contains(key@),
            },
    {
        proof {
            use_type_invariant(&*self);
        }
        match self.position(key) {
            Some(i) => {
                let mut entries: Vec<(String, T)> = Vec::new();
                std::mem::swap(&mut entries, &mut self.entries);
                proof {
                    lemma_entries_remove(entries@, i as int);
                }
                let (_, t) = entries.remove(i);
                self.entries = entries;
                Some(t)
            },
            None => {
                assert(self@.remove(key@) =~= self@);
                None
            },
        }
    }

    /// Puts a value under a key, in place of the one that was there.
    pub fn insert(&mut self, key: String, value: T)
        ensures
            final(self)@ == old(self)@.insert(key@, value),
    {
        let _replaced = self.remove(key.as_str());
        proof {
            use_type_invariant(&*self);
            lemma_entries_dom(self.entries@, key@);
        }
        let ghost kept = self@;
        let mut entries: Vec<(String, T)> = Vec::new();
        std::mem::swap(&mut entries, &mut self.entries);
        let ghost before = entries@;
        entries.push((key, value));
        assert(entries@.drop_last() =~= before);
        self.entries = entries;
        assert(self@ =~= old(self)@.insert(key@, value));
    }

    /// Takes every value out, each with its key.
    pub fn drain(&mut self) -> (r: Vec<(String, T)>)
        ensures
            final(self)@ == Map::<Seq<char>, T>::empty(),
            entries_map(r@) == old(self)@,
            keys_distinct(r@),
    {
        proof {
            use_type_invariant(&*self);
        }
        let mut entries: Vec<(String, T)> = Vec::new();
        std::mem::swap(&mut entries, &mut self.entries);
        entries
    }

    /// Whether the map is empty.
    pub fn is_empty(&self) -> (r: bool)
        ensures
            r == (self@ == Map::<Seq<char>, T>::empty()),
    {
        proof {
            if self.entries@.len() > 0 {
                assert(entries_map(self.entries@).dom().contains(self.entries@.last().0@));
            }
        }
        self.entries.len() == 0
    }
}

} // verus!
