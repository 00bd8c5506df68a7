//! A map from collection ids to values of any kind.
//!
//! The registry of open handles and the table of locks are both kept per
//! collection id. This is the map they share: a list of entries in which no
//! id occurs twice.
use vstd::prelude::*;
use vstd::string::*;

verus! {

/// One entry of a [`Directory`].
struct Entry<V> {
    key: String,
    value: V,
}

/// Whether some entry has the key `key`.
spec fn holds<V>(entries: Seq<Entry<V>>, key: Seq<char>) -> bool {
    exists|i: int| 0 <= i < entries.len() && (#[trigger] entries[i]).key@ == key
}

/// The position of an entry with the key `key`.
spec fn place<V>(entries: Seq<Entry<V>>, key: Seq<char>) -> int {
    choose|i: int| 0 <= i < entries.len() && (#[trigger] entries[i]).key@ == key
}

/// Whether no key occurs twice.
spec fn distinct<V>(entries: Seq<Entry<V>>) -> bool {
    forall|i: int, j: int|
        0 <= i < j < entries.len() ==> (#[trigger] entries[i]).key@ != (#[trigger] entries[j]).key@
}

/// The map that a list of entries stands for.
spec fn mapped<V>(entries: Seq<Entry<V>>) -> Map<Seq<char>, V> {
    Map::new(
        |key: Seq<char>| holds(entries, key),
        |key: Seq<char>| entries[place(entries, key)].value,
    )
}

/// Where no key occurs twice, a key is found at the position of its entry.
proof fn lemma_place<V>(entries: Seq<Entry<V>>, i: int)
    requires
        distinct(entries),
        0 <= i < entries.len(),
    ensures
        holds(entries, entries[i].key@),
        place(entries, entries[i].key@) == i,
        mapped(entries).contains_key(entries[i].key@),
        mapped(entries)[entries[i].key@] == entries[i].value,
{
    let key = entries[i].key@;
    let found = place(entries, key);
    assert(0 <= found < entries.len() && entries[found].key@ == key);
    if found < i {
        assert(entries[found].key@ != entries[i].key@);
    } else if i < found {
        assert(entries[i].key@ != entries[found].key@);
    }
}

/// Appending an entry with a new key adds it to the map.
proof fn lemma_push<V>(entries: Seq<Entry<V>>, entry: Entry<V>)
    requires
        distinct(entries),
        !holds(entries, entry.key@),
    ensures
        distinct(entries.push(entry)),
        mapped(entries.push(entry)) == mapped(entries).insert(entry.key@, entry.value),
{
    let grown = entries.push(entry);
    assert forall|i: int, j: int| 0 <= i < j < grown.len() implies (#[trigger] grown[i]).key@ != (
    #[trigger] grown[j]).key@ by {
        if j < entries.len() {
            assert(entries[i].key@ != entries[j].key@);
        } else {
            assert(grown[i] == entries[i]);
        }
    }
    let expected = mapped(entries).insert(entry.key@, entry.value);
    assert forall|key: Seq<char>| mapped(grown).contains_key(key) <==> expected.contains_key(
        key,
    ) by {
        if holds(grown, key) {
            let i = place(grown, key);
            if i < entries.len() {
                assert(entries[i] == grown[i]);
            }
        }
        if holds(entries, key) {
            let i = place(entries, key);
            assert(grown[i] == entries[i]);
        }
        if key == entry.key@ {
            assert(grown[entries.len() as int].key@ == key);
        }
    }
    assert forall|key: Seq<char>| mapped(grown).contains_key(key) implies mapped(grown)[key]
        == expected[key] by {
        let i = place(grown, key);
        lemma_place(grown, i);
        if i < entries.len() {
            assert(grown[i] == entries[i]);
            lemma_place(entries, i);
        }
    }
    assert(mapped(grown) =~= expected);
}

/// Taking an entry out takes its key out of the map.
proof fn lemma_remove<V>(entries: Seq<Entry<V>>, at: int)
    requires
        distinct(entries),
        0 <= at < entries.len(),
    ensures
        distinct(entries.remove(at)),
        !holds(entries.remove(at), entries[at].key@),
        mapped(entries.remove(at)) == mapped(entries).remove(entries[at].key@),
{
    let rest = entries.remove(at);
    let gone = entries[at].key@;
    assert forall|i: int| 0 <= i < rest.len() implies #[trigger] rest[i] == entries[if i < at {
        i
    } else {
        i + 1
    }] by {}
    assert forall|i: int, j: int| 0 <= i < j < rest.len() implies (#[trigger] rest[i]).key@ != (
    #[trigger] rest[j]).key@ by {
        let a = if i < at {
            i
        } else {
            i + 1
        };
        let b = if j < at {
            j
        } else {
            j + 1
        };
        assert(entries[a].key@ != entries[b].key@);
    }
    assert(!holds(rest, gone)) by {
        if holds(rest, gone) {
            let i = place(rest, gone);
            let a = if i < at {
                i
            } else {
                i + 1
            };
            assert(rest[i] == entries[a]);
            if a < at {
                assert(entries[a].key@ != entries[at].key@);
            } else {
                assert(entries[at].key@ != entries[a].key@);
            }
        }
    }
    let expected = mapped(entries).remove(gone);
    assert forall|key: Seq<char>| mapped(rest).contains_key(key) <==> expected.contains_key(
        key,
    ) by {
        if holds(rest, key) {
            let i = place(rest, key);
            let a = if i < at {
                i
            } else {
                i + 1
            };
            assert(rest[i] == entries[a]);
            assert(entries[a].key@ == key);
        }
        if holds(entries, key) && key != gone {
            let a = place(entries, key);
            let i = if a < at {
                a
            } else {
                a - 1
            };
            assert(rest[i] == entries[a]);
        }
    }
    assert forall|key: Seq<char>| mapped(rest).contains_key(key) implies mapped(rest)[key]
        == expected[key] by {
        let i = place(rest, key);
        lemma_place(rest, i);
        let a = if i < at {
            i
        } else {
            i + 1
        };
        assert(rest[i] == entries[a]);
        lemma_place(entries, a);
    }
    assert(mapped(rest) =~= expected);
}

/// A map from collection ids to values.
pub struct Directory<V> {
    entries: Vec<Entry<V>>,
}

impl<V> View for Directory<V> {
    type V = Map<Seq<char>, V>;

    closed spec fn view(&self) -> Map<Seq<char>, V> {
        mapped(self.entries@)
    }
}

impl<V> Directory<V> {
    #[verifier::type_invariant]
    spec fn inv(self) -> bool {
        distinct(self.entries@)
    }

    /// A directory without entries.
    pub fn new() -> (directory: Directory<V>)
        ensures
            directory@ == Map::<Seq<char>, V>::empty(),
    {
        let directory = Directory { entries: Vec::new() };
        assert(directory@ =~= Map::<Seq<char>, V>::empty());
        directory
    }

    /// The position of the entry of `collection`, if there is one.
    fn find(&self, collection: &str) -> (found: Option<usize>)
        ensures
            match found {
                Some(i) => i < self.entries@.len() && self.entries@[i as int].key@ == collection@,
                None => !holds(self.entries@, collection@),
            },
    {
        let wanted = String::from_str(collection);
        let mut i: usize = 0;
        while i < self.entries.len()
            invariant
                i <= self.entries@.len(),
                wanted@ == collection@,
                forall|j: int| 0 <= j < i ==> (#[trigger] self.entries@[j]).key@ != collection@,
            decreases self.entries@.len() - i,
        {
            if self.entries[i].key == wanted {
                return Some(i);
            }
            i = i + 1;
        }
        None
    }

    /// Whether `collection` has an entry.
    pub fn contains(&self, collection: &str) -> (held: bool)
        ensures
            held == self@.contains_key(collection@),
    {
        self.find(collection).is_some()
    }

    /// The value of `collection`, if it has an entry.
    pub fn get(&self, collection: &str) -> (value: Option<&V>)
        ensures
            match value {
                Some(v) => self@.contains_key(collection@) && *v == self@[collection@],
                None => !self@.contains_key(collection@),
            },
    {
        proof {
            use_type_invariant(self);
        }
        match self.find(collection) {
            Some(i) => {
                proof {
                    lemma_place(self.entries@, i as int);
                }
                Some(&self.entries[i].value)
            },
            None => None,
        }
    }

    /// Gives `collection` the value `value` and returns the value it had, if
    /// any. No other entry changes.
    pub fn insert(&mut self, collection: &str, value: V) -> (previous: Option<V>)
        ensures
            final(self)@ == old(self)@.insert(collection@, value),
            previous == if old(self)@.contains_key(collection@) {
                Some(old(self)@[collection@])
            } else {
                None::<V>
            },
    {
        proof {
            use_type_invariant(&*self);
        }
        let previous = self.remove(collection);
        let key = String::from_str(collection);
        proof {
            use_type_invariant(&*self);
            assert(!holds(self.entries@, key@));
            lemma_push(self.entries@, Entry { key, value });
            assert(old(self)@.remove(collection@).insert(collection@, value) =~= old(self)@.insert(
                collection@,
                value,
            ));
        }
        let mut taken: Directory<V> = Directory::new();
        std::mem::swap(self, &mut taken);
        let Directory { mut entries } = taken;
        entries.push(Entry { key, value });
        *self = Directory { entries };
        previous
    }

    /// Takes the entry of `collection` out and returns its value, if it had
    /// one. No other entry changes.
    pub fn remove(&mut self, collection: &str) -> (previous: Option<V>)
        ensures
            final(self)@ == old(self)@.remove(collection@),
            !final(self)@.contains_key(collection@),
            previous == if old(self)@.contains_key(collection@) {
                Some(old(self)@[collection@])
            } else {
                None::<V>
            },
    {
        proof {
            use_type_invariant(&*self);
        }
        match self.find(collection) {
            Some(i) => {
                proof {
                    lemma_place(self.entries@, i as int);
                    lemma_remove(self.entries@, i as int);
                }
                let mut taken: Directory<V> = Directory::new();
                std::mem::swap(self, &mut taken);
                let Directory { mut entries } = taken;
                let entry = entries.remove(i);
                *self = Directory { entries };
                Some(entry.value)
            },
            None => {
                assert(old(self)@.remove(collection@) =~= old(self)@);
                None
            },
        }
    }
}

} // verus!
