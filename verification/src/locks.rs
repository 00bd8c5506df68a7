//! Who may work on a collection.
//!
//! At most one operation at a time may change a collection; any number may
//! search it while none changes it; a drop works alone. Each collection is
//! admitted by itself: what is held on one collection never decides what is
//! granted on another.
//!
//! The table only decides. To wait for what is not granted, and to release
//! on every way out of an operation, is the caller's part.
use crate::directory::Directory;
use vstd::prelude::*;

verus! {

/// What is held on one collection.
#[derive(Debug, Clone, Copy, PartialEq, Eq, Structural)]
pub struct Holders {
    /// The number of searches in progress.
    pub readers: usize,
    /// Whether an insert or a drop is in progress.
    pub writer: bool,
}

/// What is held on every collection on which something is held.
pub type Held = Map<Seq<char>, Holders>;

/// What is held on a collection on which nothing is held.
pub open spec fn nobody() -> Holders {
    Holders { readers: 0, writer: false }
}

/// What is held on `collection`.
pub open spec fn holders_of(held: Held, collection: Seq<char>) -> Holders {
    if held.contains_key(collection) {
        held[collection]
    } else {
        nobody()
    }
}

/// Whether a writer is alone wherever there is one, and the table lists no
/// collection on which nothing is held.
pub open spec fn exclusive(held: Held) -> bool {
    forall|collection: Seq<char>| #[trigger]
        held.contains_key(collection) ==> {
            let holders = held[collection];
            &&& holders.writer ==> holders.readers == 0
            &&& holders != nobody()
        }
}

/// Whether a search may start on a collection with these holders.
pub open spec fn may_read(holders: Holders) -> bool {
    !holders.writer && holders.readers < usize::MAX
}

/// Whether an insert or a drop may start on a collection with these
/// holders.
pub open spec fn may_write(holders: Holders) -> bool {
    !holders.writer && holders.readers == 0
}

/// The table with `holders` on `collection`.
pub open spec fn with_holders(held: Held, collection: Seq<char>, holders: Holders) -> Held {
    if holders == nobody() {
        held.remove(collection)
    } else {
        held.insert(collection, holders)
    }
}

/// The table after a search asked to start on `collection`.
pub open spec fn after_try_read(held: Held, collection: Seq<char>) -> Held {
    let holders = holders_of(held, collection);
    if may_read(holders) {
        with_holders(
            held,
            collection,
            Holders { readers: (holders.readers + 1) as usize, writer: false },
        )
    } else {
        held
    }
}

/// The table after an insert or a drop asked to start on `collection`.
pub open spec fn after_try_write(held: Held, collection: Seq<char>) -> Held {
    if may_write(holders_of(held, collection)) {
        with_holders(held, collection, Holders { readers: 0, writer: true })
    } else {
        held
    }
}

/// The table after a search on `collection` has ended.
pub open spec fn after_release_read(held: Held, collection: Seq<char>) -> Held {
    let holders = holders_of(held, collection);
    if holders.readers > 0 {
        with_holders(
            held,
            collection,
            Holders { readers: (holders.readers - 1) as usize, ..holders },
        )
    } else {
        held
    }
}

/// The table after an insert or a drop on `collection` has ended.
pub open spec fn after_release_write(held: Held, collection: Seq<char>) -> Held {
    let holders = holders_of(held, collection);
    if holders.writer {
        with_holders(held, collection, Holders { writer: false, ..holders })
    } else {
        held
    }
}

/// The table of what is held on each collection.
pub struct LockTable {
    held: Directory<Holders>,
}

impl View for LockTable {
    type V = Held;

    closed spec fn view(&self) -> Held {
        self.held@
    }
}

impl LockTable {
    #[verifier::type_invariant]
    spec fn inv(self) -> bool {
        exclusive(self.held@)
    }

    /// A table in which nothing is held.
    pub fn new() -> (table: LockTable)
        ensures
            table@ == Held::empty(),
            exclusive(table@),
    {
        LockTable { held: Directory::new() }
    }

    /// What is held on `collection`.
    pub fn holders(&self, collection: &str) -> (holders: Holders)
        ensures
            holders == holders_of(self@, collection@),
            exclusive(self@),
    {
        proof {
            use_type_invariant(self);
        }
        match self.held.get(collection) {
            Some(holders) => *holders,
            None => Holders { readers: 0, writer: false },
        }
    }

    /// Puts `holders` on `collection`.
    fn put(self, collection: &str, holders: Holders) -> (table: LockTable)
        requires
            holders.writer ==> holders.readers == 0,
        ensures
            table@ == with_holders(self@, collection@, holders),
            exclusive(table@),
    {
        proof {
            use_type_invariant(&self);
        }
        let LockTable { mut held } = self;
        if holders.readers == 0 && !holders.writer {
            let previous = held.remove(collection);
        } else {
            let previous = held.insert(collection, holders);
        }
        LockTable { held }
    }

    /// Asks to start a search on `collection`. It is granted unless an
    /// insert or a drop is in progress on that collection; searches do not
    /// exclude each other. Nothing changes where it is not granted, and
    /// nothing ever changes for another collection.
    pub fn try_read(&mut self, collection: &str) -> (granted: bool)
        ensures
            granted == may_read(holders_of(old(self)@, collection@)),
            final(self)@ == after_try_read(old(self)@, collection@),
            exclusive(final(self)@),
    {
        let holders = self.holders(collection);
        if !holders.writer && holders.readers < usize::MAX {
            let mut table = LockTable::new();
            std::mem::swap(self, &mut table);
            *self = table.put(collection, Holders { readers: holders.readers + 1, writer: false });
            true
        } else {
            false
        }
    }

    /// Asks to start an insert or a drop on `collection`. It is granted
    /// only where nothing is in progress on that collection. Nothing changes
    /// where it is not granted, and nothing ever changes for another
    /// collection.
    pub fn try_write(&mut self, collection: &str) -> (granted: bool)
        ensures
            granted == may_write(holders_of(old(self)@, collection@)),
            final(self)@ == after_try_write(old(self)@, collection@),
            exclusive(final(self)@),
    {
        let holders = self.holders(collection);
        if !holders.writer && holders.readers == 0 {
            let mut table = LockTable::new();
            std::mem::swap(self, &mut table);
            *self = table.put(collection, Holders { readers: 0, writer: true });
            true
        } else {
            false
        }
    }

    /// Ends a search on `collection`. Where none is in progress nothing
    /// changes.
    pub fn release_read(&mut self, collection: &str)
        ensures
            final(self)@ == after_release_read(old(self)@, collection@),
            exclusive(final(self)@),
    {
        let holders = self.holders(collection);
        if holders.readers > 0 {
            let mut table = LockTable::new();
            std::mem::swap(self, &mut table);
            *self = table.put(
                collection,
                Holders { readers: holders.readers - 1, writer: holders.writer },
            );
        }
    }

    /// Ends an insert or a drop on `collection`. Where none is in progress
    /// nothing changes.
    pub fn release_write(&mut self, collection: &str)
        ensures
            final(self)@ == after_release_write(old(self)@, collection@),
            exclusive(final(self)@),
    {
        let holders = self.holders(collection);
        if holders.writer {
            let mut table = LockTable::new();
            std::mem::swap(self, &mut table);
            *self = table.put(collection, Holders { readers: holders.readers, writer: false });
        }
    }
}

/// Writers are alone, always: whatever is asked of a table in which every
/// writer is alone, every writer is alone afterwards.
pub proof fn lemma_exclusive_is_kept(held: Held, collection: Seq<char>)
    requires
        exclusive(held),
    ensures
        exclusive(after_try_read(held, collection)),
        exclusive(after_try_write(held, collection)),
        exclusive(after_release_read(held, collection)),
        exclusive(after_release_write(held, collection)),
{
}

/// While an insert or a drop is in progress on a collection, nothing else
/// starts on it; once it has ended, the collection is free again.
pub proof fn lemma_writer_works_alone(held: Held, collection: Seq<char>)
    requires
        exclusive(held),
        may_write(holders_of(held, collection)),
    ensures
        ({
            let writing = after_try_write(held, collection);
            &&& !may_read(holders_of(writing, collection))
            &&& !may_write(holders_of(writing, collection))
            &&& after_try_read(writing, collection) == writing
            &&& after_try_write(writing, collection) == writing
            &&& holders_of(after_release_write(writing, collection), collection) == nobody()
        }),
{
}

/// Searches do not exclude each other, and they keep writers out: while a
/// search is in progress on a collection, another may start, and neither an
/// insert nor a drop may.
pub proof fn lemma_readers_share(held: Held, collection: Seq<char>)
    requires
        exclusive(held),
        may_read(holders_of(held, collection)),
    ensures
        ({
            let reading = after_try_read(held, collection);
            &&& holders_of(reading, collection).readers == holders_of(held, collection).readers + 1
            &&& !may_write(holders_of(reading, collection))
            &&& holders_of(reading, collection).readers < usize::MAX ==> may_read(
                holders_of(reading, collection),
            )
            &&& holders_of(after_release_read(reading, collection), collection) == holders_of(
                held,
                collection,
            )
        }),
{
}

/// Collections do not wait for each other: what is granted on a collection
/// depends on what is held on that collection alone, and whatever is asked
/// for one collection leaves what is held on every other as it is.
pub proof fn lemma_collections_are_independent(
    held: Held,
    other: Held,
    collection: Seq<char>,
    bystander: Seq<char>,
)
    requires
        collection != bystander,
        holders_of(held, collection) == holders_of(other, collection),
    ensures
        holders_of(after_try_read(held, collection), collection) == holders_of(
            after_try_read(other, collection),
            collection,
        ),
        holders_of(after_try_write(held, collection), collection) == holders_of(
            after_try_write(other, collection),
            collection,
        ),
        holders_of(after_try_read(held, collection), bystander) == holders_of(held, bystander),
        holders_of(after_try_write(held, collection), bystander) == holders_of(held, bystander),
        holders_of(after_release_read(held, collection), bystander) == holders_of(
            held,
            bystander,
        ),
        holders_of(after_release_write(held, collection), bystander) == holders_of(
            held,
            bystander,
        ),
{
}

} // verus!
