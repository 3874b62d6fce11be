//! The hash table that backs every sparse map of this crate.
//!
//! The table itself is `bevy::utils::HashMap`, which is hashbrown's `HashMap`
//! with a hasher of bevy's choice; nothing in this file is proved. Each
//! function below states what the corresponding method of that map does to
//! the table's contents, and the rest of the crate is verified against these
//! statements.

use vstd::prelude::*;

verus! {

/// A key of a [`Table`]: a pair of numbers.
pub type Key = (u64, u64);

/// A hash table from pairs of numbers to numbers, held in a `bevy::utils::HashMap`.
#[verifier::external_body]
#[derive(Debug)]
pub struct Table {
    inner: bevy::utils::HashMap<(u64, u64), u64>,
}

/// What a table holds: the value stored under each key that is present.
pub uninterp spec fn table_contents(table: Table) -> Map<(u64, u64), u64>;

/// `entries` lists `contents`: every listed pair is stored, no key is listed
/// twice, and every stored key is listed.
pub open spec fn lists(entries: Seq<(Key, u64)>, contents: Map<Key, u64>) -> bool {
    &&& forall|i: int|
        0 <= i < entries.len() ==> contents.contains_key(#[trigger] entries[i].0)
            && contents[entries[i].0] == entries[i].1
    &&& forall|i: int, j: int|
        0 <= i < j < entries.len() ==> #[trigger] entries[i].0 != #[trigger] entries[j].0
    &&& forall|key: Key| #[trigger]
        contents.contains_key(key) ==> exists|i: int|
            0 <= i < entries.len() && #[trigger] entries[i].0 == key
}

impl Table {
    /// `bevy::utils::HashMap::default`: a table that holds nothing.
    #[verifier::external_body]
    pub(crate) fn new() -> (r: Table)
        ensures
            table_contents(r).dom() == Set::<Key>::empty(),
    {
        Table { inner: bevy::utils::HashMap::default() }
    }

    /// `bevy::utils::HashMap::get`: the value stored under `key`, if the key
    /// is present.
    #[verifier::external_body]
    pub(crate) fn get(&self, key: Key) -> (value: Option<u64>)
        ensures
            value == (if table_contents(*self).contains_key(key) {
                Some(table_contents(*self)[key])
            } else {
                None
            }),
    {
        self.inner.get(&key).copied()
    }

    /// `bevy::utils::HashMap::insert`: afterwards `value` is stored under
    /// `key`, in place of what was stored there before, and every other key is
    /// as it was.
    #[verifier::external_body]
    pub(crate) fn insert(&mut self, key: Key, value: u64)
        ensures
            table_contents(*final(self)) == table_contents(*old(self)).insert(key, value),
    {
        self.inner.insert(key, value);
    }

    /// `bevy::utils::HashMap::iter`: every stored pair exactly once, in an
    /// order that nothing is said about.
    #[verifier::external_body]
    pub(crate) fn entries(&self) -> (entries: Vec<(Key, u64)>)
        ensures
            lists(entries@, table_contents(*self)),
    {
        self.inner.iter().map(|(key, value)| (*key, *value)).collect()
    }
}

} // verus!
