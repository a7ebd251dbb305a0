//! What has been done to each recording: the processing record kept between runs.
use vstd::prelude::*;
use crate::text::same_text;

verus! {

/// How a recording was handled: when, under which title, by which method, how many
/// words came out, and the transcript file written, if any.
#[derive(Clone, Debug, PartialEq)]
pub struct ProcessedEntry {
    pub date: String,
    pub title: String,
    pub method: String,
    pub words: usize,
    pub output: Option<String>,
}

impl ProcessedEntry {
    /// A field-by-field copy.
    pub fn duplicate(&self) -> (r: ProcessedEntry)
        ensures
            r == *self,
    {
        ProcessedEntry {
            date: self.date.clone(),
            title: self.title.clone(),
            method: self.method.clone(),
            words: self.words,
            output: match &self.output {
                Some(o) => Some(o.clone()),
                None => None,
            },
        }
    }
}

/// The keys of a list of pairs, as text.
pub open spec fn keys_of(entries: Seq<(String, ProcessedEntry)>) -> Seq<Seq<char>> {
    entries.map_values(|p: (String, ProcessedEntry)| p.0@)
}

/// The entries recorded for each recording id, each id at most once.
pub struct ProcessedMap {
    entries: Vec<(String, ProcessedEntry)>,
}

impl ProcessedMap {
    #[verifier::type_invariant]
    spec fn keys_unique(self) -> bool {
        keys_of(self.entries@).no_duplicates()
    }
}

impl View for ProcessedMap {
    type V = Map<Seq<char>, ProcessedEntry>;

    closed spec fn view(&self) -> Map<Seq<char>, ProcessedEntry> {
        Map::new(
            |k: Seq<char>| keys_of(self.entries@).contains(k),
            |k: Seq<char>| self.entries@[keys_of(self.entries@).index_of(k)].1,
        )
    }
}

impl ProcessedMap {
    /// An empty record.
    pub fn new() -> (r: ProcessedMap)
        ensures
            r@ == Map::<Seq<char>, ProcessedEntry>::empty(),
    {
        let r = ProcessedMap { entries: Vec::new() };
        assert(r@ =~= Map::<Seq<char>, ProcessedEntry>::empty());
        r
    }

    /// The position of `key` among the entries, if it is there.
    fn position(&self, key: &str) -> (r: Option<usize>)
        ensures
            match r {
                Some(i) => i < self.entries@.len() && self.entries@[i as int].0@ == key@,
                None => !keys_of(self.entries@).contains(key@),
            },
    {
        for i in 0..self.entries.len()
            invariant
                forall|j: int| 0 <= j < i ==> self.entries@[j].0@ != key@,
        {
            if same_text(self.entries[i].0.as_str(), key) {
                return Some(i);
            }
        }
        proof {
            assert forall|j: int| 0 <= j < keys_of(self.entries@).len() implies keys_of(self.entries@)[j] != key@ by {
                assert(keys_of(self.entries@)[j] == self.entries@[j].0@);
            }
        }
        None
    }

    /// Whether an entry is recorded for `key`.
    pub fn contains_key(&self, key: &str) -> (r: bool)
        ensures
            r == self@.contains_key(key@),
    {
        let p = self.position(key);
        proof {
            if let Some(i) = p {
                assert(keys_of(self.entries@)[i as int] == key@);
            }
        }
        p.is_some()
    }

    /// The entry recorded for `key`, if any.
    pub fn get(&self, key: &str) -> (r: Option<&ProcessedEntry>)
        ensures
            match r {
                Some(v) => self@.contains_key(key@) && *v == self@[key@],
                None => !self@.contains_key(key@),
            },
    {
        proof { use_type_invariant(self); }
        match self.position(key) {
            Some(i) => {
                proof {
                    let ks = keys_of(self.entries@);
                    assert(ks[i as int] == key@);
                    assert(ks.contains(key@));
                    assert(ks.index_of(key@) == i);
                }
                Some(&self.entries[i].1)
            },
            None => None,
        }
    }

    /// Records `value` for `key`, replacing what was recorded for it before.
    pub fn insert(&mut self, key: String, value: ProcessedEntry)
        ensures
            final(self)@ == old(self)@.insert(key@, value),
    {
        proof { use_type_invariant(&*self); }
        let ghost before = self.entries@;
        let ghost old_view = self@;
        let pos = self.position(key.as_str());
        let mut entries: Vec<(String, ProcessedEntry)> = Vec::new();
        std::mem::swap(&mut entries, &mut self.entries);
        match pos {
            Some(i) => {
                let ghost k = key@;
                entries.set(i, (key, value));
                proof {
                    let ks = keys_of(entries@);
                    assert(ks =~= keys_of(before)) by {
                        assert forall|j: int| 0 <= j < ks.len() implies ks[j] == keys_of(before)[j] by {
                            if j == i as int {
                                assert(keys_of(before)[j] == before[j].0@);
                            }
                        }
                    }
                }
                self.entries = entries;
                proof {
                    let ks = keys_of(self.entries@);
                    assert(self@ =~= old_view.insert(k, value)) by {
                        assert forall|q: Seq<char>| ks.contains(q) implies
                            self.entries@[ks.index_of(q)].1 == old_view.insert(k, value)[q] by {
                            let j = ks.index_of(q);
                            assert(ks[j] == q);
                            assert(ks[i as int] == k);
                            if q == k {
                                assert(j == i);
                            } else {
                                assert(j != i);
                                assert(keys_of(before).index_of(q) == j);
                            }
                        }
                        assert forall|q: Seq<char>| old_view.insert(k, value).contains_key(q) implies ks.contains(q) by {
                            if q == k {
                                assert(ks[i as int] == k);
                            }
                        }
                    }
                }
            },
            None => {
                let ghost k = key@;
                entries.push((key, value));
                proof {
                    assert(keys_of(entries@) =~= keys_of(before).push(k));
                }
                self.entries = entries;
                proof {
                    let ks = keys_of(self.entries@);
                    assert(ks =~= keys_of(before).push(k));
                    assert(self@ =~= old_view.insert(k, value)) by {
                        assert forall|q: Seq<char>| ks.contains(q) implies
                            self.entries@[ks.index_of(q)].1 == old_view.insert(k, value)[q] by {
                            let j = ks.index_of(q);
                            if q == k {
                                assert(ks[before.len() as int] == k);
                            } else {
                                assert(j < before.len());
                                assert(keys_of(before)[j] == q);
                            }
                        }
                        assert forall|q: Seq<char>| old_view.insert(k, value).contains_key(q) implies ks.contains(q) by {
                            if q == k {
                                assert(ks[before.len() as int] == k);
                            } else {
                                let j = keys_of(before).index_of(q);
                                assert(ks[j] == q);
                            }
                        }
                    }
                }
            },
        }
    }

    /// There is one entry for each recorded id.
    proof fn lemma_len(&self)
        requires
            keys_of(self.entries@).no_duplicates(),
        ensures
            self@.len() == self.entries@.len(),
    {
        keys_of(self.entries@).unique_seq_to_set();
        assert(self@.dom() =~= keys_of(self.entries@).to_set());
    }

    /// The number of recordings with an entry.
    pub fn len(&self) -> (r: usize)
        ensures
            r == self@.len(),
    {
        proof {
            use_type_invariant(self);
            self.lemma_len();
        }
        self.entries.len()
    }

    /// Whether no recording has an entry.
    pub fn is_empty(&self) -> (r: bool)
        ensures
            r == (self@ == Map::<Seq<char>, ProcessedEntry>::empty()),
    {
        if self.entries.len() == 0 {
            assert(self@ =~= Map::<Seq<char>, ProcessedEntry>::empty());
            true
        } else {
            assert(keys_of(self.entries@)[0] == self.entries@[0].0@);
            assert(self@.contains_key(self.entries@[0].0@));
            false
        }
    }

    /// The recorded pairs, each recording id once.
    pub fn entries(&self) -> (r: &Vec<(String, ProcessedEntry)>)
        ensures
            keys_of(r@).no_duplicates(),
            r@.len() == self@.len(),
            forall|i: int| 0 <= i < r@.len() ==> #[trigger] self@.contains_key(r@[i].0@)
                && self@[r@[i].0@] == r@[i].1,
            forall|k: Seq<char>| self@.contains_key(k) ==> keys_of(r@).contains(k),
    {
        proof {
            use_type_invariant(self);
            assert forall|i: int| 0 <= i < self.entries@.len() implies
                #[trigger] self@.contains_key(self.entries@[i].0@) && self@[self.entries@[i].0@] == self.entries@[i].1 by {
                let ks = keys_of(self.entries@);
                assert(ks[i] == self.entries@[i].0@);
                assert(ks.contains(ks[i]));
            }
        }
        proof { self.lemma_len(); }
        &self.entries
    }
}

/// The processing record: an entry for each recording that has been handled.
pub struct State {
    pub processed: ProcessedMap,
}

impl State {
    /// A record with no entries.
    pub fn new() -> (r: State)
        ensures
            r.processed@ == Map::<Seq<char>, ProcessedEntry>::empty(),
    {
        State { processed: ProcessedMap::new() }
    }
}

impl Default for State {
    fn default() -> (r: State)
        ensures
            r.processed@ == Map::<Seq<char>, ProcessedEntry>::empty(),
    {
        State::new()
    }
}

/// What one lookup gives back of the last write: after recording `value` for `key`,
/// `key` reads back `value`, and every other id reads back what it did before.
pub proof fn lemma_read_after_insert(m: Map<Seq<char>, ProcessedEntry>, key: Seq<char>, value: ProcessedEntry, other: Seq<char>)
    ensures
        m.insert(key, value).contains_key(key),
        m.insert(key, value)[key] == value,
        other != key ==> (m.insert(key, value).contains_key(other) == m.contains_key(other)),
        other != key && m.contains_key(other) ==> m.insert(key, value)[other] == m[other],
{
}

} // verus!
