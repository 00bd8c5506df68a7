//! Collections are kept apart by their names.
//!
//! Every statement that a coordinator issues names the table of its own
//! collection, and every file the snapshot file of its own collection. Here
//! the stores of all collections are taken together, each table under its
//! name and each snapshot under its file name, and it is shown that what is
//! done to one collection leaves every other as it is.
use crate::insert::{InsertBatchView, InsertEvent};
use crate::naming::{
    lemma_snapshot_files_distinct, lemma_table_names_distinct, snapshot_file_of, table_name_of,
};
use crate::removal::{DropCollectionView, DropEvent};
use crate::row::RowView;
use crate::search::{SearchActionView, SearchEventView};
use crate::stores::Stores;
use vstd::multiset::Multiset;
use vstd::prelude::*;

verus! {

/// The stores of all collections.
pub struct Kept {
    /// The rows of every table, by the table's name.
    pub tables: Map<Seq<char>, Map<i64, RowView>>,
    /// The keys in every snapshot file, by the file's name.
    pub snapshots: Map<Seq<char>, Multiset<u64>>,
    /// The keys in every open index, by the collection's id.
    pub open: Map<Seq<char>, Multiset<u64>>,
}

impl Kept {
    /// The stores of `collection`: the table under its table's name, the
    /// snapshot under its file's name, and its open index.
    pub open spec fn of(self, collection: Seq<char>) -> Stores {
        Stores {
            table: if self.tables.contains_key(table_name_of(collection)) {
                Some(self.tables[table_name_of(collection)])
            } else {
                None
            },
            snapshot: if self.snapshots.contains_key(snapshot_file_of(collection)) {
                Some(self.snapshots[snapshot_file_of(collection)])
            } else {
                None
            },
            index: if self.open.contains_key(collection) {
                Some(self.open[collection])
            } else {
                None
            },
        }
    }

    /// All stores once those of `collection` have become `stores`: what is
    /// kept under the names of `collection` is put, or taken away, and
    /// nothing else is touched.
    pub open spec fn with(self, collection: Seq<char>, stores: Stores) -> Kept {
        Kept {
            tables: match stores.table {
                Some(rows) => self.tables.insert(table_name_of(collection), rows),
                None => self.tables.remove(table_name_of(collection)),
            },
            snapshots: match stores.snapshot {
                Some(keys) => self.snapshots.insert(snapshot_file_of(collection), keys),
                None => self.snapshots.remove(snapshot_file_of(collection)),
            },
            open: match stores.index {
                Some(keys) => self.open.insert(collection, keys),
                None => self.open.remove(collection),
            },
        }
    }
}

/// What is kept under the names of one collection is that collection's and
/// no other's: putting the stores of `collection` gives them back for
/// `collection`, and leaves the stores of every other collection as they
/// are, whatever the two ids hold.
pub proof fn lemma_kept_apart(
    kept: Kept,
    collection: Seq<char>,
    stores: Stores,
    other: Seq<char>,
)
    requires
        other != collection,
    ensures
        kept.with(collection, stores).of(collection) == stores,
        kept.with(collection, stores).of(other) == kept.of(other),
{
    if table_name_of(other) == table_name_of(collection) {
        lemma_table_names_distinct(other, collection);
    }
    if snapshot_file_of(other) == snapshot_file_of(collection) {
        lemma_snapshot_files_distinct(other, collection);
    }
}

/// An insert changes no other collection: however an insert into a
/// collection goes, the rows, the snapshot file and the open index of every
/// other collection are as they were.
pub proof fn lemma_insert_touches_one_collection(
    kept: Kept,
    s: InsertBatchView,
    events: Seq<InsertEvent>,
    other: Seq<char>,
)
    requires
        other != s.collection,
    ensures
        ({
            let after = kept.with(s.collection, kept.of(s.collection).after_inserting(s, events));
            &&& after.of(other) == kept.of(other)
            &&& after.of(s.collection) == kept.of(s.collection).after_inserting(s, events)
        }),
{
    lemma_kept_apart(kept, s.collection, kept.of(s.collection).after_inserting(s, events), other);
}

/// A search changes no other collection.
pub proof fn lemma_search_touches_one_collection(
    kept: Kept,
    collection: Seq<char>,
    action: SearchActionView,
    event: SearchEventView,
    other: Seq<char>,
)
    requires
        other != collection,
    ensures
        kept.with(collection, kept.of(collection).after_search(action, event)).of(other)
            == kept.of(other),
{
    lemma_kept_apart(kept, collection, kept.of(collection).after_search(action, event), other);
}

/// A drop removes nothing of another collection: however the drop of a
/// collection goes, the rows, the snapshot file and the open index of every
/// other collection are as they were.
pub proof fn lemma_drop_touches_one_collection(
    kept: Kept,
    s: DropCollectionView,
    events: Seq<DropEvent>,
    other: Seq<char>,
)
    requires
        other != s.collection,
    ensures
        ({
            let after = kept.with(s.collection, kept.of(s.collection).after_dropping(s, events));
            &&& after.of(other) == kept.of(other)
            &&& after.of(s.collection) == kept.of(s.collection).after_dropping(s, events)
        }),
{
    lemma_kept_apart(kept, s.collection, kept.of(s.collection).after_dropping(s, events), other);
}

} // verus!
