use crate::idmap::IdKind;
use vstd::hash_map::StringHashMap;
use vstd::prelude::*;

verus! {

pub struct IdView {
    pub kind: IdKind,
    pub module_index: u32,
    pub local_id: Seq<char>,
    pub global_id: Seq<char>,
}

/// A name of one module and the identifier it is known by everywhere.
#[derive(Debug)]
pub struct Id {
    pub kind: IdKind,
    /// Index in [crate::css_map::CssMap]
    pub module_index: u32,
    pub local_id: String,
    pub global_id: String,
}

impl View for Id {
    type V = IdView;

    open spec fn view(&self) -> IdView {
        IdView {
            kind: self.kind,
            module_index: self.module_index,
            local_id: self.local_id@,
            global_id: self.global_id@,
        }
    }
}

impl Id {
    pub fn new(kind: IdKind, module_index: u32, local_id: String, global_id: String) -> (id: Self)
        ensures
            id.kind == kind,
            id.module_index == module_index,
            id.local_id == local_id,
            id.global_id == global_id,
    {
        Self { kind, module_index, local_id, global_id }
    }

    /// A copy of the identifier.
    pub fn duplicate(&self) -> (id: Self)
        ensures
            id == *self,
    {
        Self {
            kind: self.kind,
            module_index: self.module_index,
            local_id: self.local_id.clone(),
            global_id: self.global_id.clone(),
        }
    }
}

/// One entry of a table of identifiers: the name that it is found by, and
/// the identifier.
pub type Entry = (Seq<char>, IdView);

/// What `entries` hold for `key`: the value of the first entry with this
/// name.
pub open spec fn find<V>(entries: Seq<(Seq<char>, V)>, key: Seq<char>) -> Option<V>
    decreases entries.len(),
{
    if entries.len() == 0 {
        None
    } else {
        match find(entries.drop_last(), key) {
            Some(value) => Some(value),
            None => if entries.last().0 == key {
                Some(entries.last().1)
            } else {
                None
            },
        }
    }
}

/// Whether no two entries have the same name.
pub open spec fn distinct_keys<V>(entries: Seq<(Seq<char>, V)>) -> bool {
    forall|i: int, j: int|
        0 <= i < entries.len() && 0 <= j < entries.len() && i != j ==> (#[trigger] entries[i]).0 != (
        #[trigger] entries[j]).0
}

/// A name that no entry has is not found.
pub proof fn lemma_find_none<V>(entries: Seq<(Seq<char>, V)>, key: Seq<char>)
    requires
        forall|i: int| 0 <= i < entries.len() ==> (#[trigger] entries[i]).0 != key,
    ensures
        find(entries, key) is None,
    decreases entries.len(),
{
    if entries.len() > 0 {
        lemma_find_none(entries.drop_last(), key);
    }
}

/// Where names are distinct, the name of an entry finds that entry.
pub proof fn lemma_find_some<V>(entries: Seq<(Seq<char>, V)>, i: int)
    requires
        distinct_keys(entries),
        0 <= i < entries.len(),
    ensures
        find(entries, entries[i].0) == Some(entries[i].1),
    decreases entries.len(),
{
    let key = entries[i].0;
    let rest = entries.drop_last();
    if i == entries.len() - 1 {
        assert forall|k: int| 0 <= k < rest.len() implies (#[trigger] rest[k]).0 != key by {
            assert(rest[k] == entries[k]);
        }
        lemma_find_none(rest, key);
    } else {
        assert forall|a: int, b: int|
            0 <= a < rest.len() && 0 <= b < rest.len() && a != b implies (#[trigger] rest[a]).0 != (
        #[trigger] rest[b]).0 by {
            assert(rest[a] == entries[a]);
            assert(rest[b] == entries[b]);
        }
        assert(rest[i] == entries[i]);
        lemma_find_some(rest, i);
    }
}

/// What is found comes from an entry with that name.
pub proof fn lemma_find_is_entry<V>(entries: Seq<(Seq<char>, V)>, key: Seq<char>)
    requires
        find(entries, key) is Some,
    ensures
        exists|i: int| 0 <= i < entries.len() && #[trigger] entries[i] == (key, find(entries, key)->0),
    decreases entries.len(),
{
    if entries.len() > 0 {
        let rest = entries.drop_last();
        if find(rest, key) is Some {
            lemma_find_is_entry(rest, key);
            let i = choose|i: int| 0 <= i < rest.len() && #[trigger] rest[i] == (key, find(rest, key)->0);
            assert(entries[i] == rest[i]);
        } else {
            let i = entries.len() - 1;
            assert(entries[i] == (key, find(entries, key)->0));
        }
    }
}

/// Values by name, in the order in which they came.
pub struct Table<T> {
    index: StringHashMap<usize>,
    keys: Vec<String>,
    values: Vec<T>,
}

/// Identifiers by name, in the order in which they came.
pub type IdTable = Table<Id>;

impl<T: View> View for Table<T> {
    type V = Seq<(Seq<char>, T::V)>;

    closed spec fn view(&self) -> Seq<(Seq<char>, T::V)> {
        Seq::new(self.values@.len(), |i: int| (self.keys@[i]@, self.values@[i]@))
    }
}

impl<T: View> Table<T> {
    pub closed spec fn wf(&self) -> bool {
        &&& self.keys@.len() == self.values@.len()
        &&& forall|i: int|
            0 <= i < self.keys@.len() ==> self.index@.contains_key(#[trigger] self.keys@[i]@)
                && self.index@[self.keys@[i]@] == i
        &&& forall|k: Seq<char>| #[trigger]
            self.index@.contains_key(k) ==> self.index@[k] < self.keys@.len()
                && self.keys@[self.index@[k] as int]@ == k
    }

    /// No two entries of a table have the same name.
    pub proof fn lemma_distinct(&self)
        requires
            self.wf(),
        ensures
            distinct_keys(self@),
    {
    }

    pub fn new() -> (t: Self)
        ensures
            t.wf(),
            t@ == Seq::<(Seq<char>, T::V)>::empty(),
    {
        let t = Self { index: StringHashMap::new(), keys: Vec::new(), values: Vec::new() };
        assert(t@ =~= Seq::<(Seq<char>, T::V)>::empty());
        t
    }

    /// The number of entries.
    pub fn len(&self) -> (n: usize)
        requires
            self.wf(),
        ensures
            n == self@.len(),
    {
        self.values.len()
    }

    /// The value that the table holds for `key`.
    pub fn get(&self, key: &str) -> (r: Option<&T>)
        requires
            self.wf(),
        ensures
            match r {
                Some(value) => find(self@, key@) == Some(value@),
                None => find(self@, key@) is None,
            },
    {
        match self.index.get(key) {
            Some(i) => {
                proof {
                    self.lemma_distinct();
                    lemma_find_some(self@, *i as int);
                }
                Some(&self.values[*i])
            },
            None => {
                proof {
                    lemma_find_none(self@, key@);
                }
                None
            },
        }
    }

    /// Adds an entry for a name that the table does not hold yet.
    pub fn insert(&mut self, key: String, value: T)
        requires
            old(self).wf(),
            find(old(self)@, key@) is None,
        ensures
            final(self).wf(),
            final(self)@ == old(self)@.push((key@, value@)),
    {
        proof {
            if self.index@.contains_key(key@) {
                self.lemma_distinct();
                lemma_find_some(self@, self.index@[key@] as int);
            }
        }
        let i = self.values.len();
        self.index.insert(key.clone(), i);
        self.keys.push(key);
        self.values.push(value);
        assert(self@ =~= old(self)@.push((key@, value@)));
    }

    /// The name of the entry at `i`.
    pub fn key_at(&self, i: usize) -> (key: &String)
        requires
            self.wf(),
            i < self@.len(),
        ensures
            key@ == self@[i as int].0,
    {
        &self.keys[i]
    }

    /// The value of the entry at `i`.
    pub fn id_at(&self, i: usize) -> (value: &T)
        requires
            self.wf(),
            i < self@.len(),
        ensures
            value@ == self@[i as int].1,
    {
        &self.values[i]
    }
}

} // verus!
