//! A reference model of the key-value engine: a map from keys to values
//! with the engine's `set`/`get`/`del` semantics.  The gateway's
//! translation layer is proved, and exercised by tests, against this
//! model; the running process delegates the same operations to the real
//! engine.

use vstd::prelude::*;
use crate::ascii::str_eq;
use crate::response::data_view;

verus! {

/// One key with its stored value.
struct Entry {
    key: String,
    value: String,
}

/// The map contents of a run of entries: every key of an entry is bound,
/// later entries winning (the store itself keeps keys distinct).
spec fn map_of(entries: Seq<Entry>) -> Map<Seq<char>, Seq<char>>
    decreases entries.len(),
{
    if entries.len() == 0 {
        Map::empty()
    } else {
        map_of(entries.drop_last()).insert(entries.last().key@, entries.last().value@)
    }
}

/// The value bound to a key, if the key is bound at all.
pub open spec fn lookup(m: Map<Seq<char>, Seq<char>>, k: Seq<char>) -> Option<Seq<char>> {
    if m.contains_key(k) {
        Some(m[k])
    } else {
        None
    }
}

/// An in-memory key-value store, viewed as a map from key contents to
/// value contents.
pub struct Store {
    entries: Vec<Entry>,
}

/// Pairwise-distinct keys over a run of entries.
spec fn distinct_keys(entries: Seq<Entry>) -> bool {
    forall|i: int, j: int|
        0 <= i < j < entries.len() ==> entries[i].key@ != entries[j].key@
}

proof fn lemma_map_absent(entries: Seq<Entry>, k: Seq<char>)
    requires
        forall|i: int| 0 <= i < entries.len() ==> entries[i].key@ != k,
    ensures
        !map_of(entries).contains_key(k),
    decreases entries.len(),
{
    if entries.len() > 0 {
        lemma_map_absent(entries.drop_last(), k);
    }
}

proof fn lemma_map_found(entries: Seq<Entry>, i: int)
    requires
        distinct_keys(entries),
        0 <= i < entries.len(),
    ensures
        map_of(entries).contains_key(entries[i].key@),
        map_of(entries)[entries[i].key@] == entries[i].value@,
    decreases entries.len(),
{
    if i < entries.len() - 1 {
        assert(entries.drop_last()[i] == entries[i]);
        lemma_map_found(entries.drop_last(), i);
    }
}

proof fn lemma_distinct_remove(entries: Seq<Entry>, i: int)
    requires
        distinct_keys(entries),
        0 <= i < entries.len(),
    ensures
        distinct_keys(entries.remove(i)),
{
    assert forall|p: int, q: int|
        0 <= p < q < entries.remove(i).len() implies entries.remove(i)[p].key@ != entries.remove(
        i,
    )[q].key@ by {
        let p0 = if p < i { p } else { p + 1 };
        let q0 = if q < i { q } else { q + 1 };
        assert(entries.remove(i)[p] == entries[p0]);
        assert(entries.remove(i)[q] == entries[q0]);
    }
}

proof fn lemma_map_remove_at(entries: Seq<Entry>, i: int)
    requires
        distinct_keys(entries),
        0 <= i < entries.len(),
    ensures
        map_of(entries.remove(i)) == map_of(entries).remove(entries[i].key@),
    decreases entries.len(),
{
    let k = entries[i].key@;
    if i == entries.len() - 1 {
        assert(entries.remove(i) =~= entries.drop_last());
        lemma_map_absent(entries.drop_last(), k);
        assert(map_of(entries.drop_last()) =~= map_of(entries).remove(k));
    } else {
        assert(entries.remove(i).drop_last() =~= entries.drop_last().remove(i));
        assert(entries.remove(i).last() == entries.last());
        lemma_map_remove_at(entries.drop_last(), i);
        assert(entries.last().key@ != k);
        assert(map_of(entries.remove(i)) =~= map_of(entries).remove(k));
    }
}

impl Store {
    /// Keys are pairwise distinct.
    #[verifier::type_invariant]
    spec fn wf(self) -> bool {
        distinct_keys(self.entries@)
    }

    /// A fresh store binds no key.
    pub fn new() -> (s: Store)
        ensures
            s@ == Map::<Seq<char>, Seq<char>>::empty(),
    {
        let s = Store { entries: Vec::new() };
        proof {
            assert(s@ =~= Map::<Seq<char>, Seq<char>>::empty());
        }
        s
    }

    /// The position of the entry holding `key`, if one does.
    fn find(&self, key: &str) -> (r: Option<usize>)
        ensures
            match r {
                Some(i) => i < self.entries@.len() && self.entries@[i as int].key@ == key@,
                None => forall|j: int|
                    0 <= j < self.entries@.len() ==> self.entries@[j].key@ != key@,
            },
    {
        let mut i: usize = 0;
        let n = self.entries.len();
        while i < n
            invariant
                0 <= i <= n,
                n == self.entries@.len(),
                forall|j: int| 0 <= j < i ==> self.entries@[j].key@ != key@,
            decreases n - i,
        {
            if str_eq(self.entries[i].key.as_str(), key) {
                return Some(i);
            }
            i += 1;
        }
        None
    }

    /// Reads one key: the bound value, or nothing when the key is absent.
    pub fn get(&self, key: &str) -> (r: Option<String>)
        ensures
            data_view(r) == lookup(self@, key@),
    {
        proof {
            use_type_invariant(self);
        }
        match self.find(key) {
            Some(i) => {
                proof {
                    lemma_map_found(self.entries@, i as int);
                }
                Some(self.entries[i].value.clone())
            },
            None => {
                proof {
                    lemma_map_absent(self.entries@, key@);
                }
                None
            },
        }
    }

    /// Writes one key, replacing any value it held.
    pub fn put(&mut self, key: &str, value: &str)
        ensures
            final(self)@ == old(self)@.insert(key@, value@),
    {
        proof {
            use_type_invariant(&*self);
        }
        let found = self.find(key);
        let mut entries: Vec<Entry> = Vec::new();
        std::mem::swap(&mut entries, &mut self.entries);
        let ghost pre = entries@;
        match found {
            Some(i) => {
                proof {
                    lemma_map_remove_at(pre, i as int);
                    lemma_distinct_remove(pre, i as int);
                }
                entries.remove(i);
            },
            None => {
                proof {
                    lemma_map_absent(pre, key@);
                }
            },
        }
        let ghost mid = entries@;
        proof {
            assert(forall|j: int| 0 <= j < mid.len() ==> mid[j].key@ != key@);
        }
        let e = Entry { key: key.to_owned(), value: value.to_owned() };
        entries.push(e);
        proof {
            assert(entries@.drop_last() =~= mid);
            assert(distinct_keys(entries@));
            assert(map_of(entries@) =~= map_of(pre).insert(key@, value@));
        }
        std::mem::swap(&mut entries, &mut self.entries);
    }

    /// Removes one key; reports whether the store held it.
    pub fn del(&mut self, key: &str) -> (existed: bool)
        ensures
            existed == old(self)@.contains_key(key@),
            final(self)@ == old(self)@.remove(key@),
            !old(self)@.contains_key(key@) ==> final(self)@ == old(self)@,
    {
        proof {
            use_type_invariant(&*self);
        }
        let found = self.find(key);
        match found {
            Some(i) => {
                let mut entries: Vec<Entry> = Vec::new();
                std::mem::swap(&mut entries, &mut self.entries);
                proof {
                    lemma_map_found(entries@, i as int);
                    lemma_map_remove_at(entries@, i as int);
                    lemma_distinct_remove(entries@, i as int);
                }
                entries.remove(i);
                std::mem::swap(&mut entries, &mut self.entries);
                true
            },
            None => {
                proof {
                    lemma_map_absent(self.entries@, key@);
                    assert(self@.remove(key@) =~= self@);
                }
                false
            },
        }
    }
}

impl View for Store {
    type V = Map<Seq<char>, Seq<char>>;

    closed spec fn view(&self) -> Map<Seq<char>, Seq<char>> {
        map_of(self.entries@)
    }
}

} // verus!
