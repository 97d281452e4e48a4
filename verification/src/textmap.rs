//! A mapping from text to text.

use vstd::prelude::*;
use crate::table::{table_of, unique_names, Table};

verus! {

/// The text of a string.
pub open spec fn as_text() -> spec_fn(String) -> Seq<char> {
    |value: String| value@
}

/// The mapping that a list of entries stands for: each entry maps the text of
/// its key to the text of its value, and a later entry replaces an earlier one
/// of the same key.
pub open spec fn map_of(entries: Seq<(String, String)>) -> Map<Seq<char>, Seq<char>> {
    table_of(entries).map_values(as_text())
}

/// No key has two entries.
pub open spec fn unique_keys(entries: Seq<(String, String)>) -> bool {
    unique_names(entries)
}

/// A mapping from text to text.
#[derive(Debug)]
pub struct TextMap {
    table: Table<String>,
}

impl View for TextMap {
    type V = Map<Seq<char>, Seq<char>>;

    closed spec fn view(&self) -> Map<Seq<char>, Seq<char>> {
        self.table@.map_values(as_text())
    }
}

impl TextMap {
    /// The mapping that maps nothing.
    pub fn new() -> (map: TextMap)
        ensures
            map@ == Map::<Seq<char>, Seq<char>>::empty(),
    {
        let map = TextMap { table: Table::new() };
        assert(map.table@.map_values(as_text()) =~= Map::empty());
        map
    }

    /// Maps `key` to `value`, in place of what `key` was mapped to before.
    pub fn insert(&mut self, key: String, value: String)
        ensures
            final(self)@ == old(self)@.insert(key@, value@),
    {
        self.table.insert(key.as_str(), value);
        assert(self.table@.map_values(as_text()) =~= old(self).table@.map_values(
            as_text(),
        ).insert(key@, value@));
    }

    /// What `key` is mapped to, if it is mapped at all.
    pub fn get(&self, key: &str) -> (found: Option<&String>)
        ensures
            match found {
                Some(value) => self@.contains_key(key@) && self@[key@] == value@,
                None => !self@.contains_key(key@),
            },
    {
        self.table.get(key)
    }

    /// The entries, one for each key that is mapped: the key, then its value.
    pub fn entries(&self) -> (entries: &Vec<(String, String)>)
        ensures
            unique_keys(entries@),
            map_of(entries@) == self@,
    {
        self.table.entries()
    }
}

} // verus!
