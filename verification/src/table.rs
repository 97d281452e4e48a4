//! A small table with texts as keys, kept as a list in which no key stands
//! twice.

use vstd::prelude::*;
use vstd::string::StringExecFns;

verus! {

/// The mapping that a list of entries stands for: each entry maps the text of
/// its key to its value, and a later entry replaces an earlier one of the same
/// key.
pub open spec fn table_of<V>(entries: Seq<(String, V)>) -> Map<Seq<char>, V>
    decreases entries.len(),
{
    if entries.len() == 0 {
        Map::empty()
    } else {
        table_of(entries.drop_last()).insert(entries.last().0@, entries.last().1)
    }
}

/// No key has two entries.
pub open spec fn unique_names<V>(entries: Seq<(String, V)>) -> bool {
    forall|i: int, j: int|
        0 <= i < j < entries.len() ==> (#[trigger] entries[i]).0@ != (#[trigger] entries[j]).0@
}

proof fn lemma_table_domain<V>(entries: Seq<(String, V)>, key: Seq<char>)
    ensures
        table_of(entries).contains_key(key) <==> exists|i: int|
            0 <= i < entries.len() && (#[trigger] entries[i]).0@ == key,
    decreases entries.len(),
{
    if entries.len() > 0 {
        let before = entries.drop_last();
        lemma_table_domain(before, key);
        if table_of(entries).contains_key(key) {
            if entries.last().0@ == key {
                assert(entries[entries.len() - 1].0@ == key);
            } else {
                let i = choose|i: int| 0 <= i < before.len() && (#[trigger] before[i]).0@ == key;
                assert(entries[i].0@ == key);
            }
        } else {
            assert forall|i: int| 0 <= i < entries.len() implies (#[trigger] entries[i]).0@
                != key by {
                if i < before.len() {
                    assert(before[i].0@ == entries[i].0@);
                }
            }
        }
    }
}

proof fn lemma_names_prefix<V>(entries: Seq<(String, V)>)
    requires
        unique_names(entries),
        entries.len() > 0,
    ensures
        unique_names(entries.drop_last()),
{
    let before = entries.drop_last();
    assert forall|i: int, j: int| 0 <= i < j < before.len() implies (#[trigger] before[i]).0@ != (
    #[trigger] before[j]).0@ by {
        assert(before[i] == entries[i] && before[j] == entries[j]);
    }
}

proof fn lemma_table_entry<V>(entries: Seq<(String, V)>, at: int)
    requires
        unique_names(entries),
        0 <= at < entries.len(),
    ensures
        table_of(entries).contains_key(entries[at].0@),
        table_of(entries)[entries[at].0@] == entries[at].1,
    decreases entries.len(),
{
    let before = entries.drop_last();
    if at < entries.len() - 1 {
        lemma_names_prefix(entries);
        lemma_table_entry(before, at);
        assert(entries[at].0@ != entries[entries.len() - 1].0@);
        assert(before[at] == entries[at]);
    }
}

proof fn lemma_table_replace<V>(entries: Seq<(String, V)>, at: int, entry: (String, V))
    requires
        unique_names(entries),
        0 <= at < entries.len(),
        entries[at].0@ == entry.0@,
    ensures
        unique_names(entries.update(at, entry)),
        table_of(entries.update(at, entry)) == table_of(entries).insert(entry.0@, entry.1),
    decreases entries.len(),
{
    let after = entries.update(at, entry);
    assert(unique_names(after)) by {
        assert forall|i: int, j: int| 0 <= i < j < after.len() implies (#[trigger] after[i]).0@ != (
        #[trigger] after[j]).0@ by {
            assert(after[i].0@ == entries[i].0@ && after[j].0@ == entries[j].0@);
        }
    }
    let before = entries.drop_last();
    if at == entries.len() - 1 {
        assert(after.drop_last() =~= before);
        assert(table_of(after) =~= table_of(entries).insert(entry.0@, entry.1));
    } else {
        lemma_names_prefix(entries);
        lemma_table_replace(before, at, entry);
        assert(after.drop_last() =~= before.update(at, entry));
        assert(after.last() == entries.last());
        assert(entries[at].0@ != entries[entries.len() - 1].0@);
        assert(table_of(after) =~= table_of(entries).insert(entry.0@, entry.1));
    }
}

proof fn lemma_table_push<V>(entries: Seq<(String, V)>, entry: (String, V))
    requires
        unique_names(entries),
        forall|i: int| 0 <= i < entries.len() ==> (#[trigger] entries[i]).0@ != entry.0@,
    ensures
        unique_names(entries.push(entry)),
        table_of(entries.push(entry)) == table_of(entries).insert(entry.0@, entry.1),
{
    let after = entries.push(entry);
    assert(after.drop_last() =~= entries);
    assert forall|i: int, j: int| 0 <= i < j < after.len() implies (#[trigger] after[i]).0@ != (
    #[trigger] after[j]).0@ by {
        if j < entries.len() {
            assert(after[i] == entries[i] && after[j] == entries[j]);
        } else {
            assert(after[i] == entries[i]);
        }
    }
}

/// A table from texts to values of `V`.
#[derive(Debug)]
pub struct Table<V> {
    entries: Vec<(String, V)>,
}

impl<V> View for Table<V> {
    type V = Map<Seq<char>, V>;

    closed spec fn view(&self) -> Map<Seq<char>, V> {
        table_of(self.entries@)
    }
}

impl<V> Table<V> {
    #[verifier::type_invariant]
    spec fn no_key_twice(&self) -> bool {
        unique_names(self.entries@)
    }

    /// The table that holds nothing.
    pub fn new() -> (table: Table<V>)
        ensures
            table@ == Map::<Seq<char>, V>::empty(),
    {
        Table { entries: Vec::new() }
    }

    /// Puts `value` under `key`, in place of what stood there before.
    pub fn insert(&mut self, key: &str, value: V)
        ensures
            final(self)@ == old(self)@.insert(key@, value),
    {
        proof {
            use_type_invariant(&*self);
        }
        let key = String::from_str(key);
        let mut entries: Vec<(String, V)> = Vec::new();
        std::mem::swap(&mut entries, &mut self.entries);
        let mut at: usize = 0;
        while at < entries.len() && entries[at].0 != key
            invariant
                at <= entries.len(),
                forall|i: int| 0 <= i < at ==> (#[trigger] entries@[i]).0@ != key@,
            decreases entries.len() - at,
        {
            at += 1;
        }
        if at < entries.len() {
            proof {
                lemma_table_replace(entries@, at as int, (key, value));
            }
            entries.set(at, (key, value));
        } else {
            proof {
                lemma_table_push(entries@, (key, value));
            }
            entries.push((key, value));
        }
        self.entries = entries;
    }

    /// What stands under `key`, if anything does.
    pub fn get(&self, key: &str) -> (found: Option<&V>)
        ensures
            match found {
                Some(value) => self@.contains_key(key@) && self@[key@] == *value,
                None => !self@.contains_key(key@),
            },
    {
        proof {
            use_type_invariant(self);
        }
        let wanted = String::from_str(key);
        let mut at: usize = 0;
        while at < self.entries.len()
            invariant
                at <= self.entries.len(),
                wanted@ == key@,
                unique_names(self.entries@),
                forall|i: int| 0 <= i < at ==> (#[trigger] self.entries@[i]).0@ != key@,
            decreases self.entries.len() - at,
        {
            if self.entries[at].0 == wanted {
                proof {
                    lemma_table_entry(self.entries@, at as int);
                }
                return Some(&self.entries[at].1);
            }
            at += 1;
        }
        proof {
            lemma_table_domain(self.entries@, key@);
        }
        None
    }

    /// The entries, one for each key that the table holds: the key, then what
    /// stands under it.
    pub fn entries(&self) -> (entries: &Vec<(String, V)>)
        ensures
            unique_names(entries@),
            table_of(entries@) == self@,
    {
        proof {
            use_type_invariant(self);
        }
        &self.entries
    }
}

} // verus!
