//! Maps from names to values that keep their entries in the order in which
//! the names were first inserted.
//!
//! The work is done by a handful of functions on a vector of entries in
//! which no name occurs twice. [`Table`] wraps such a vector and keeps it
//! that way as its invariant.

use vstd::prelude::*;
use crate::text::str_eq;

verus! {

/// One name with its value.
#[derive(Debug)]
pub struct Entry<V> {
    key: String,
    value: V,
}

/// No name occurs twice.
pub closed spec fn distinct<V>(entries: Seq<Entry<V>>) -> bool {
    forall|i: int, j: int| 0 <= i < j < entries.len() ==> entries[i].key@ != entries[j].key@
}

/// The names in the order of the entries.
pub closed spec fn names<V>(entries: Seq<Entry<V>>) -> Seq<Seq<char>> {
    Seq::new(entries.len(), |i: int| entries[i].key@)
}

spec fn holds<V>(entries: Seq<Entry<V>>, k: Seq<char>) -> bool {
    exists|i: int| 0 <= i < entries.len() && entries[i].key@ == k
}

spec fn slot<V>(entries: Seq<Entry<V>>, k: Seq<char>) -> int {
    choose|i: int| 0 <= i < entries.len() && entries[i].key@ == k
}

/// The map that the entries stand for: each name with the value of the
/// entry that carries it.
pub closed spec fn lookup<V>(entries: Seq<Entry<V>>) -> Map<Seq<char>, V> {
    Map::new(|k: Seq<char>| holds(entries, k), |k: Seq<char>| entries[slot(entries, k)].value)
}

/// Without entries there are no names and nothing is mapped.
pub proof fn lemma_no_entries<V>()
    ensures
        distinct(Seq::<Entry<V>>::empty()),
        names(Seq::<Entry<V>>::empty()) == Seq::<Seq<char>>::empty(),
        lookup(Seq::<Entry<V>>::empty()) == Map::<Seq<char>, V>::empty(),
{
    assert(names(Seq::<Entry<V>>::empty()) =~= Seq::<Seq<char>>::empty());
    assert(lookup(Seq::<Entry<V>>::empty()) =~= Map::<Seq<char>, V>::empty());
}

/// The names are the keys of the map, there are as many names as entries,
/// and with distinct entries no name is listed twice.
pub proof fn lemma_names<V>(entries: Seq<Entry<V>>)
    ensures
        names(entries).len() == entries.len(),
        forall|k: Seq<char>| names(entries).contains(k) <==> lookup(entries).contains_key(k),
        distinct(entries) ==> names(entries).no_duplicates(),
        distinct(entries) ==> lookup(entries).dom().finite() && lookup(entries).dom().len()
            == entries.len(),
        entries.len() == 0 <==> lookup(entries) == Map::<Seq<char>, V>::empty(),
{
    assert forall|k: Seq<char>| names(entries).contains(k) <==> lookup(entries).contains_key(
        k,
    ) by {
        if names(entries).contains(k) {
            let i = choose|i: int| 0 <= i < names(entries).len() && names(entries)[i] == k;
            assert(entries[i].key@ == k);
        }
        if lookup(entries).contains_key(k) {
            let i = slot(entries, k);
            assert(names(entries)[i] == k);
        }
    }
    if entries.len() == 0 {
        assert(lookup(entries) =~= Map::<Seq<char>, V>::empty());
    } else {
        assert(holds(entries, entries[0].key@));
        assert(lookup(entries).contains_key(entries[0].key@));
    }
    if distinct(entries) {
        assert(names(entries).to_set() =~= lookup(entries).dom());
        vstd::seq_lib::seq_to_set_is_finite(names(entries));
        names(entries).unique_seq_to_set();
    }
}

/// Where a mapped name stands among the names.
pub proof fn lemma_name_position<V>(entries: Seq<Entry<V>>, k: Seq<char>) -> (i: int)
    requires
        lookup(entries).contains_key(k),
    ensures
        0 <= i < names(entries).len(),
        names(entries)[i] == k,
{
    slot(entries, k)
}

/// A vector of entries is larger than each value that it maps, so a
/// definition may recurse from the entries into what they hold.
pub proof fn lemma_value_decreases<V>(entries: Vec<Entry<V>>, k: Seq<char>)
    requires
        lookup(entries@).contains_key(k),
    ensures
        decreases_to!(entries => lookup(entries@)[k]),
{
    let i = slot(entries@, k);
    assert(decreases_to!(entries => entries@));
    assert(decreases_to!(entries@ => entries@[i]));
    assert(decreases_to!(entries@[i] => entries@[i].value));
}

/// The place of the entry named `key`, if there is one.
fn find_entry<V>(entries: &Vec<Entry<V>>, key: &str) -> (r: Option<usize>)
    requires
        distinct(entries@),
    ensures
        match r {
            Some(i) => 0 <= i < entries@.len() && entries@[i as int].key@ == key@ && slot(
                entries@,
                key@,
            ) == i && holds(entries@, key@),
            None => !holds(entries@, key@),
        },
{
    let mut i: usize = 0;
    while i < entries.len()
        invariant
            i <= entries@.len(),
            forall|j: int| 0 <= j < i ==> entries@[j].key@ != key@,
            distinct(entries@),
        decreases entries@.len() - i,
    {
        if str_eq(entries[i].key.as_str(), key) {
            proof {
                let s = slot(entries@, key@);
                assert(entries@[s].key@ == key@);
            }
            return Some(i);
        }
        i += 1;
    }
    None
}

/// Whether an entry is named `key`.
pub(crate) fn has_entry<V>(entries: &Vec<Entry<V>>, key: &str) -> (b: bool)
    requires
        distinct(entries@),
    ensures
        b == lookup(entries@).contains_key(key@),
{
    find_entry(entries, key).is_some()
}

/// The value of the entry named `key`, if there is one.
pub(crate) fn get_entry<'a, V>(entries: &'a Vec<Entry<V>>, key: &str) -> (r: Option<&'a V>)
    requires
        distinct(entries@),
    ensures
        match r {
            Some(v) => lookup(entries@).contains_key(key@) && *v == lookup(entries@)[key@],
            None => !lookup(entries@).contains_key(key@),
        },
{
    match find_entry(entries, key) {
        Some(i) => Some(&entries[i].value),
        None => None,
    }
}

/// The name of entry `i`.
pub(crate) fn entry_key<V>(entries: &Vec<Entry<V>>, i: usize) -> (key: &String)
    requires
        i < entries@.len(),
    ensures
        key@ == names(entries@)[i as int],
        lookup(entries@).contains_key(key@),
{
    proof {
        assert(holds(entries@, entries@[i as int].key@));
    }
    &entries[i].key
}

/// The value of entry `i`.
pub(crate) fn entry_value<V>(entries: &Vec<Entry<V>>, i: usize) -> (value: &V)
    requires
        i < entries@.len(),
        distinct(entries@),
    ensures
        lookup(entries@).contains_key(names(entries@)[i as int]),
        *value == lookup(entries@)[names(entries@)[i as int]],
{
    proof {
        let k = entries@[i as int].key@;
        assert(holds(entries@, k));
        let s = slot(entries@, k);
        assert(entries@[s].key@ == k);
    }
    &entries[i].value
}

/// The views of a sequence of strings.
pub open spec fn views(strings: Seq<String>) -> Seq<Seq<char>> {
    strings.map_values(|s: String| s@)
}

/// The names of the entries, in their order.
pub(crate) fn entry_names<V>(entries: &Vec<Entry<V>>) -> (out: Vec<String>)
    ensures
        views(out@) == names(entries@),
{
    let mut out: Vec<String> = Vec::new();
    let mut i: usize = 0;
    while i < entries.len()
        invariant
            i <= entries@.len(),
            views(out@) == names(entries@).subrange(0, i as int),
        decreases entries@.len() - i,
    {
        let ghost before = out@;
        out.push(entries[i].key.clone());
        proof {
            assert(views(before).len() == i);
            assert forall|j: int| 0 <= j < i + 1 implies views(out@)[j] == names(
                entries@,
            ).subrange(0, i + 1)[j] by {
                if j < i {
                    assert(views(before)[j] == names(entries@).subrange(0, i as int)[j]);
                    assert(out@[j] == before[j]);
                }
            }
            assert(views(out@) =~= names(entries@).subrange(0, i + 1));
        }
        i += 1;
    }
    assert(names(entries@).subrange(0, i as int) =~= names(entries@));
    out
}

/// Maps `key` to `value`. A name that is already there keeps its place and
/// gets the new value; a new name goes to the end.
pub(crate) fn put_entry<V>(entries: &mut Vec<Entry<V>>, key: String, value: V)
    requires
        distinct(old(entries)@),
    ensures
        distinct(final(entries)@),
        lookup(final(entries)@) == lookup(old(entries)@).insert(key@, value),
        names(final(entries)@) == if lookup(old(entries)@).contains_key(key@) {
            names(old(entries)@)
        } else {
            names(old(entries)@).push(key@)
        },
{
    let found = find_entry(entries, key.as_str());
    let ghost before = entries@;
    let ghost k = key@;
    match found {
        Some(i) => {
            entries.set(i, Entry { key, value });
        },
        None => {
            entries.push(Entry { key, value });
        },
    }
    proof {
        let after = entries@;
        assert forall|q: Seq<char>| holds(after, q) <==> (holds(before, q) || q == k) by {
            if holds(before, q) {
                let j = slot(before, q);
                assert(after[j].key@ == q);
            }
            if q == k {
                match found {
                    Some(i) => {
                        assert(after[i as int].key@ == q);
                    },
                    None => {
                        assert(after[before.len() as int].key@ == q);
                    },
                }
            }
            if holds(after, q) {
                let j = slot(after, q);
                if j < before.len() {
                    assert(before[j].key@ == q || q == k);
                }
            }
        }
        assert forall|q: Seq<char>| holds(after, q) implies lookup(after)[q] == lookup(
            before,
        ).insert(k, value)[q] by {
            let j = slot(after, q);
            if q != k {
                let b = slot(before, q);
                assert(after[b].key@ == q);
            }
        }
        assert(lookup(after) =~= lookup(before).insert(k, value));
        if lookup(before).contains_key(k) {
            assert(names(after) =~= names(before));
        } else {
            assert(names(after) =~= names(before).push(k));
        }
    }
}

/// Takes the entry named `key` out and returns its value, if there is one.
/// The other entries keep their order.
pub(crate) fn take_entry<V>(entries: &mut Vec<Entry<V>>, key: &str) -> (r: Option<V>)
    requires
        distinct(old(entries)@),
    ensures
        distinct(final(entries)@),
        lookup(final(entries)@) == lookup(old(entries)@).remove(key@),
        match r {
            Some(v) => lookup(old(entries)@).contains_key(key@) && v == lookup(old(entries)@)[key@],
            None => !lookup(old(entries)@).contains_key(key@),
        },
        names(final(entries)@) == without(names(old(entries)@), key@),
{
    let found = find_entry(entries, key);
    let ghost before = entries@;
    let ghost k = key@;
    match found {
        None => {
            proof {
                assert(lookup(before).remove(k) =~= lookup(before));
                lemma_names(before);
                lemma_without_absent(names(before), k);
            }
            None
        },
        Some(i) => {
            let entry = entries.remove(i);
            proof {
                let after = entries@;
                assert forall|q: Seq<char>| holds(after, q) <==> (holds(before, q) && q != k) by {
                    if holds(before, q) && q != k {
                        let j = slot(before, q);
                        if j < i {
                            assert(after[j].key@ == q);
                        } else {
                            assert(after[j - 1].key@ == q);
                        }
                    }
                    if holds(after, q) {
                        let j = slot(after, q);
                        if j < i {
                            assert(before[j].key@ == q);
                        } else {
                            assert(before[j + 1].key@ == q);
                        }
                    }
                }
                assert forall|q: Seq<char>| holds(after, q) implies lookup(after)[q] == lookup(
                    before,
                )[q] by {
                    let j = slot(after, q);
                    let b = slot(before, q);
                    if j < i {
                        assert(before[j].key@ == q);
                    } else {
                        assert(before[j + 1].key@ == q);
                    }
                }
                assert(lookup(after) =~= lookup(before).remove(k));
                lemma_names(before);
                lemma_without_present(names(before), i as int);
                assert(names(after) =~= names(before).remove(i as int));
            }
            Some(entry.value)
        },
    }
}

/// A map keyed by strings. No name occurs twice in it.
#[derive(Debug)]
pub struct Table<V> {
    entries: Vec<Entry<V>>,
}

impl<V> View for Table<V> {
    type V = Map<Seq<char>, V>;

    closed spec fn view(&self) -> Map<Seq<char>, V> {
        lookup(self.entries@)
    }
}

impl<V> Table<V> {
    #[verifier::type_invariant]
    closed spec fn inv(self) -> bool {
        distinct(self.entries@)
    }

    /// The names of the table in the order of its entries.
    pub closed spec fn key_seq(&self) -> Seq<Seq<char>> {
        names(self.entries@)
    }

    /// The names in `key_seq` are the names that the table maps.
    pub proof fn lemma_key_seq_is_domain(&self)
        ensures
            forall|k: Seq<char>| self.key_seq().contains(k) <==> self@.contains_key(k),
    {
        lemma_names(self.entries@);
    }

    /// Where a mapped name stands in `key_seq`.
    pub proof fn lemma_position(&self, k: Seq<char>) -> (i: int)
        requires
            self@.contains_key(k),
        ensures
            0 <= i < self.key_seq().len(),
            self.key_seq()[i] == k,
    {
        lemma_name_position(self.entries@, k)
    }

    /// An empty table.
    pub fn new() -> (table: Table<V>)
        ensures
            table@ == Map::<Seq<char>, V>::empty(),
            table.key_seq() == Seq::<Seq<char>>::empty(),
    {
        proof {
            lemma_no_entries::<V>();
        }
        Table { entries: Vec::new() }
    }

    /// The number of entries.
    pub fn len(&self) -> (n: usize)
        ensures
            n == self.key_seq().len(),
            self.key_seq().no_duplicates(),
            self@.dom().finite(),
            n == self@.dom().len(),
    {
        proof {
            use_type_invariant(self);
            lemma_names(self.entries@);
        }
        self.entries.len()
    }

    /// Whether the table holds no entry.
    pub fn is_empty(&self) -> (b: bool)
        ensures
            b == (self.key_seq().len() == 0),
            b == (self@ == Map::<Seq<char>, V>::empty()),
    {
        proof {
            lemma_names(self.entries@);
        }
        self.entries.len() == 0
    }

    /// Whether the table maps `key`.
    pub fn contains_key(&self, key: &str) -> (b: bool)
        ensures
            b == self@.contains_key(key@),
    {
        proof {
            use_type_invariant(self);
        }
        has_entry(&self.entries, key)
    }

    /// The value under `key`, if the table maps it.
    pub fn get(&self, key: &str) -> (r: Option<&V>)
        ensures
            match r {
                Some(v) => self@.contains_key(key@) && *v == self@[key@],
                None => !self@.contains_key(key@),
            },
    {
        proof {
            use_type_invariant(self);
        }
        get_entry(&self.entries, key)
    }

    /// The name of entry `i`.
    pub fn key_at(&self, i: usize) -> (key: &String)
        requires
            i < self.key_seq().len(),
        ensures
            key@ == self.key_seq()[i as int],
            self@.contains_key(key@),
    {
        proof {
            lemma_names(self.entries@);
        }
        entry_key(&self.entries, i)
    }

    /// The value of entry `i`.
    pub fn value_at(&self, i: usize) -> (value: &V)
        requires
            i < self.key_seq().len(),
        ensures
            self@.contains_key(self.key_seq()[i as int]),
            *value == self@[self.key_seq()[i as int]],
    {
        proof {
            use_type_invariant(self);
            lemma_names(self.entries@);
        }
        entry_value(&self.entries, i)
    }

    /// The names of the table in the order of its entries: each name that
    /// the table maps, once.
    pub fn keys(&self) -> (out: Vec<String>)
        ensures
            views(out@) == self.key_seq(),
            self.key_seq().no_duplicates(),
            forall|k: Seq<char>| self.key_seq().contains(k) <==> self@.contains_key(k),
    {
        proof {
            use_type_invariant(self);
            lemma_names(self.entries@);
        }
        entry_names(&self.entries)
    }

    /// Maps `key` to `value`. A name that the table already maps keeps its
    /// place in the order and gets the new value; a new name goes to the end.
    pub fn insert(&mut self, key: String, value: V)
        ensures
            final(self)@ == old(self)@.insert(key@, value),
            final(self).key_seq() == if old(self)@.contains_key(key@) {
                old(self).key_seq()
            } else {
                old(self).key_seq().push(key@)
            },
    {
        proof {
            use_type_invariant(&*self);
            lemma_no_entries::<V>();
        }
        let mut entries: Vec<Entry<V>> = Vec::new();
        core::mem::swap(&mut entries, &mut self.entries);
        put_entry(&mut entries, key, value);
        self.entries = entries;
    }

    /// Takes `key` out of the table and returns its value, if the table maps
    /// it. The other entries keep their order.
    pub fn remove(&mut self, key: &str) -> (r: Option<V>)
        ensures
            final(self)@ == old(self)@.remove(key@),
            match r {
                Some(v) => old(self)@.contains_key(key@) && v == old(self)@[key@],
                None => !old(self)@.contains_key(key@),
            },
            final(self).key_seq() == without(old(self).key_seq(), key@),
    {
        proof {
            use_type_invariant(&*self);
            lemma_no_entries::<V>();
        }
        let mut entries: Vec<Entry<V>> = Vec::new();
        core::mem::swap(&mut entries, &mut self.entries);
        let r = take_entry(&mut entries, key);
        self.entries = entries;
        r
    }
}

/// `names` without every occurrence of `name`, the others in their order.
pub open spec fn without(names: Seq<Seq<char>>, name: Seq<char>) -> Seq<Seq<char>>
    decreases names.len(),
{
    if names.len() == 0 {
        names
    } else if names.last() == name {
        without(names.drop_last(), name)
    } else {
        without(names.drop_last(), name).push(names.last())
    }
}

/// Taking a name out of a sequence that does not hold it changes nothing.
pub proof fn lemma_without_absent(names: Seq<Seq<char>>, name: Seq<char>)
    requires
        !names.contains(name),
    ensures
        without(names, name) == names,
    decreases names.len(),
{
    if names.len() > 0 {
        let front = names.drop_last();
        assert forall|q: Seq<char>| front.contains(q) implies names.contains(q) by {
            let j = choose|j: int| 0 <= j < front.len() && front[j] == q;
            assert(names[j] == q);
        }
        lemma_without_absent(front, name);
        assert(names.contains(names.last())) by {
            assert(names[names.len() - 1] == names.last());
        }
        assert(front.push(names.last()) =~= names);
    }
}

/// Taking a name out of a sequence that holds it once, at `i`, removes the
/// element at `i`.
pub proof fn lemma_without_present(names: Seq<Seq<char>>, i: int)
    requires
        0 <= i < names.len(),
        names.no_duplicates(),
    ensures
        without(names, names[i]) == names.remove(i),
    decreases names.len(),
{
    let name = names[i];
    let front = names.drop_last();
    if i == names.len() - 1 {
        assert(!front.contains(name)) by {
            if front.contains(name) {
                let j = choose|j: int| 0 <= j < front.len() && front[j] == name;
                assert(names[j] == names[i]);
            }
        }
        lemma_without_absent(front, name);
        assert(names.remove(i) =~= front);
    } else {
        assert(front[i] == name);
        lemma_without_present(front, i);
        assert(names.last() != name) by {
            assert(names[names.len() - 1] != names[i]);
        }
        assert(front.remove(i).push(names.last()) =~= names.remove(i));
    }
}

} // verus!
