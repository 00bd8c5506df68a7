//! A model of the two stores of a collection, and what the coordinators
//! keep true of it.
//!
//! The table and the index live outside this crate. This module states what
//! each operation that a coordinator asks for does to them when it succeeds,
//! in the plainest terms: a table is a map from chunk ids to rows; a
//! snapshot file and an open index are bags of keys. An operation that fails
//! changes nothing. Against this model the order in which the coordinators
//! issue their operations is shown to keep every key paired with a row, to
//! hand out no id twice, to read a row back as it was inserted, and to leave
//! nothing behind after a drop.
use crate::error::{Fault, StoreErrorView};
use crate::insert::{
    lemma_step_preserves, ChunkView, InsertActionView, InsertBatchView, InsertEnding, InsertEvent,
    InsertPhase, InsertProgressView,
};
use crate::keys::{id_of, key_of, lemma_id_round_trip};
use crate::opening::{
    lemma_run_first, IndexOpeningView, OpenActionView, OpenEvent, OpenPhase, OpenProgressView,
};
use crate::removal::{
    lemma_drop_succeeds, success_events, DropActionView, DropCollectionView, DropEvent, DropPhase,
    DropProgressView,
};
use crate::row::RowView;
use crate::search::{
    events_through, hydrated, lemma_empty_index_finds_nothing, no_hits, Match, QueryAnswer,
    SearchActionView, SearchBatchView, SearchEventView, SearchHitView, SearchProgressView,
};
use crate::config::IndexConfig;
use vstd::multiset::Multiset;
use vstd::prelude::*;

verus! {

/// The two stores of a collection.
pub struct Stores {
    /// The rows of the table by chunk id, where there is a table.
    pub table: Option<Map<i64, RowView>>,
    /// The keys in the snapshot file, where there is one.
    pub snapshot: Option<Multiset<u64>>,
    /// The keys in the open index, where the index is open.
    pub index: Option<Multiset<u64>>,
}

impl Stores {
    /// The stores of a collection that was never created, or was dropped.
    pub open spec fn absent() -> Stores {
        Stores { table: None, snapshot: None, index: None }
    }

    /// Whether the table holds a row under `id`.
    pub open spec fn has_row(self, id: i64) -> bool {
        self.table matches Some(rows) && rows.dom().contains(id)
    }

    /// Whether every key of `keys` stands for the id of a row.
    pub open spec fn pairs(self, keys: Multiset<u64>) -> bool {
        forall|key: u64| #[trigger] keys.count(key) > 0 ==> self.has_row(id_of(key as int) as i64)
    }

    /// Whether every key, in the snapshot file and in the open index, stands
    /// for the id of a row.
    pub open spec fn paired(self) -> bool {
        &&& self.snapshot matches Some(keys) ==> self.pairs(keys)
        &&& self.index matches Some(keys) ==> self.pairs(keys)
    }

    /// The keys in the open index; none where no index is open.
    pub open spec fn open_keys(self) -> Multiset<u64> {
        match self.index {
            Some(keys) => keys,
            None => Multiset::empty(),
        }
    }

    /// The stores with a table: the one there is, or an empty one.
    pub open spec fn with_table(self) -> Stores {
        match self.table {
            Some(_) => self,
            None => Stores { table: Some(Map::empty()), ..self },
        }
    }

    /// The stores with the index open: the one that is open already, else
    /// one loaded from the snapshot file where there is one, and an empty
    /// one where there is none.
    pub open spec fn opened(self) -> Stores {
        match (self.index, self.snapshot) {
            (Some(_), _) => self,
            (None, Some(keys)) => Stores { index: Some(keys), ..self },
            (None, None) => Stores { index: Some(Multiset::empty()), ..self },
        }
    }

    /// The stores once `action` of an insert is answered by `event`.
    pub open spec fn after_insert(self, action: InsertActionView, event: InsertEvent) -> Stores {
        match (action, event) {
            (InsertActionView::EnsureTable { .. }, InsertEvent::Done) => self.with_table(),
            (InsertActionView::OpenIndex { .. }, InsertEvent::Done) => self.opened(),
            (
                InsertActionView::InsertRow { text, metadata, .. },
                InsertEvent::RowInserted { row_id },
            ) => Stores {
                table: Some(self.with_table().table->0.insert(row_id, RowView { text, metadata })),
                ..self
            },
            (InsertActionView::AddVector { key, .. }, InsertEvent::Done) => Stores {
                index: Some(self.open_keys().insert(key as u64)),
                ..self
            },
            (InsertActionView::SaveIndex { .. }, InsertEvent::Done) => Stores {
                snapshot: Some(self.open_keys()),
                ..self
            },
            _ => self,
        }
    }

    /// The stores once `action` of a search is answered by `event`.
    pub open spec fn after_search(self, action: SearchActionView, event: SearchEventView) -> Stores {
        match (action, event) {
            (SearchActionView::OpenIndex { .. }, SearchEventView::Done) => self.opened(),
            (SearchActionView::EnsureTable { .. }, SearchEventView::Done) => self.with_table(),
            _ => self,
        }
    }

    /// The stores once `action` of a drop is answered by `event`.
    pub open spec fn after_drop(self, action: DropActionView, event: DropEvent) -> Stores {
        match (action, event) {
            (DropActionView::CloseIndex { .. }, DropEvent::Done) => Stores { index: None, ..self },
            (DropActionView::DropTable { .. }, DropEvent::Done) => Stores { table: None, ..self },
            (DropActionView::RemoveSnapshot { .. }, DropEvent::Done) => Stores {
                snapshot: None,
                ..self
            },
            _ => self,
        }
    }

    /// The stores after the operations in flight of an insert, from the one
    /// of state `s` on, are answered by `events`.
    pub open spec fn after_inserting(self, s: InsertBatchView, events: Seq<InsertEvent>) -> Stores
        decreases events.len(),
    {
        if events.len() == 0 {
            self
        } else {
            let after = self.after_insert(s.pending(), events[0]);
            match s.step(events[0]) {
                InsertProgressView::Next { machine, .. } => after.after_inserting(
                    machine,
                    events.drop_first(),
                ),
                InsertProgressView::Finished { .. } => after,
            }
        }
    }

    /// The stores after the operations in flight of a drop, from the one of
    /// state `s` on, are answered by `events`.
    pub open spec fn after_dropping(self, s: DropCollectionView, events: Seq<DropEvent>) -> Stores
        decreases events.len(),
    {
        if events.len() == 0 {
            self
        } else {
            let after = self.after_drop(s.pending(), events[0]);
            match s.step(events[0]) {
                DropProgressView::Next { machine, .. } => after.after_dropping(
                    machine,
                    events.drop_first(),
                ),
                DropProgressView::Finished { .. } => after,
            }
        }
    }
}

/// The stores while the index is being opened: the stores, and the keys in
/// the index that is made and not kept yet, where there is one.
pub struct OpeningStores {
    pub stores: Stores,
    pub made: Option<Multiset<u64>>,
}

impl OpeningStores {
    /// The stores once `action` of an opening is answered by `event`. An
    /// index is made empty; loading gives it the keys of the snapshot file;
    /// keeping it makes it the open index.
    pub open spec fn after_open(self, action: OpenActionView, event: OpenEvent) -> OpeningStores {
        match (action, event) {
            (OpenActionView::Make { .. }, OpenEvent::Done) => OpeningStores {
                made: Some(Multiset::empty()),
                ..self
            },
            (OpenActionView::Load { .. }, OpenEvent::Done) => OpeningStores {
                made: self.stores.snapshot,
                ..self
            },
            (OpenActionView::Keep { .. }, OpenEvent::Done) => OpeningStores {
                stores: Stores { index: self.made, ..self.stores },
                made: None,
            },
            _ => self,
        }
    }

    /// The stores after the steps in flight of an opening, from the one of
    /// state `s` on, are answered by `events`.
    pub open spec fn after_opening(
        self,
        s: IndexOpeningView,
        events: Seq<OpenEvent>,
    ) -> OpeningStores
        decreases events.len(),
    {
        if events.len() == 0 {
            self
        } else {
            let after = self.after_open(s.pending(), events[0]);
            match s.step(events[0]) {
                OpenProgressView::Next { machine, .. } => after.after_opening(
                    machine,
                    events.drop_first(),
                ),
                OpenProgressView::Finished { .. } => after,
            }
        }
    }
}

/// The events of an opening that succeeds on `stores`, answered as the
/// stores are: the index is found where it is open; where it is not, it is
/// made, the snapshot file is found where there is one and loaded, and the
/// index is kept; and the configuration is found to fit.
pub open spec fn opening_events(stores: Stores) -> Seq<OpenEvent> {
    let done = OpenEvent::Done;
    if stores.index is Some {
        seq![done, done]
    } else if stores.snapshot is Some {
        seq![OpenEvent::Absent, done, done, done, done, done]
    } else {
        seq![OpenEvent::Absent, done, OpenEvent::Absent, done, done]
    }
}

/// Running through a first event and then the rest changes the stores as
/// one step and then the rest do.
proof fn lemma_opening_first(
    o: OpeningStores,
    s: IndexOpeningView,
    first: OpenEvent,
    rest: Seq<OpenEvent>,
)
    ensures
        o.after_opening(s, seq![first] + rest) == match s.step(first) {
            OpenProgressView::Next { machine, .. } => o.after_open(
                s.pending(),
                first,
            ).after_opening(machine, rest),
            OpenProgressView::Finished { .. } => o.after_open(s.pending(), first),
        },
{
    let events = seq![first] + rest;
    assert(events[0] == first);
    assert(events.drop_first() =~= rest);
}

/// Opening opens what the coordinators count on: an opening that succeeds
/// leaves the index that was open as it is; where none was open it leaves
/// open an index with the keys of the snapshot file, or an empty one where
/// there is no file; and it changes nothing else.
pub proof fn lemma_opening_opens(
    collection: Seq<char>,
    file: Seq<char>,
    config: IndexConfig,
    stores: Stores,
)
    ensures
        ({
            let start = IndexOpeningView::initial(collection, file, config);
            let before = OpeningStores { stores, made: None };
            let events = opening_events(stores);
            &&& start.run(events) == (OpenProgressView::Finished { outcome: Ok(()) })
            &&& before.after_opening(start, events) == (OpeningStores {
                stores: stores.opened(),
                made: None,
            })
        }),
{
    let start = IndexOpeningView::initial(collection, file, config);
    let before = OpeningStores { stores, made: None };
    let done = OpenEvent::Done;
    let absent = OpenEvent::Absent;
    let none = Seq::<OpenEvent>::empty();
    let verifying = start.at(OpenPhase::Verifying);
    assert(seq![done] =~= seq![done] + none);
    lemma_run_first(verifying, done, none);
    if stores.index is Some {
        assert(opening_events(stores) =~= seq![done] + seq![done]);
        lemma_run_first(start, done, seq![done]);
        lemma_opening_first(before, start, done, seq![done]);
        lemma_opening_first(before, verifying, done, none);
    } else {
        let making = start.at(OpenPhase::Making);
        let probing = start.at(OpenPhase::Probing);
        let loading = start.at(OpenPhase::Loading);
        let keeping = start.at(OpenPhase::Keeping);
        let made = OpeningStores { made: Some(Multiset::empty()), ..before };
        if stores.snapshot is Some {
            let loaded = OpeningStores { made: stores.snapshot, ..before };
            let kept = OpeningStores { stores: stores.opened(), made: None };
            assert(opening_events(stores) =~= seq![absent] + seq![done, done, done, done, done]);
            assert(seq![done, done, done, done, done] =~= seq![done] + seq![done, done, done, done]);
            assert(seq![done, done, done, done] =~= seq![done] + seq![done, done, done]);
            assert(seq![done, done, done] =~= seq![done] + seq![done, done]);
            assert(seq![done, done] =~= seq![done] + seq![done]);
            lemma_run_first(start, absent, seq![done, done, done, done, done]);
            lemma_run_first(making, done, seq![done, done, done, done]);
            lemma_run_first(probing, done, seq![done, done, done]);
            lemma_run_first(loading, done, seq![done, done]);
            lemma_run_first(keeping, done, seq![done]);
            lemma_opening_first(before, start, absent, seq![done, done, done, done, done]);
            lemma_opening_first(before, making, done, seq![done, done, done, done]);
            lemma_opening_first(made, probing, done, seq![done, done, done]);
            lemma_opening_first(made, loading, done, seq![done, done]);
            lemma_opening_first(loaded, keeping, done, seq![done]);
            lemma_opening_first(kept, verifying, done, none);
        } else {
            let kept = OpeningStores { stores: stores.opened(), made: None };
            assert(opening_events(stores) =~= seq![absent] + seq![done, absent, done, done]);
            assert(seq![done, absent, done, done] =~= seq![done] + seq![absent, done, done]);
            assert(seq![absent, done, done] =~= seq![absent] + seq![done, done]);
            assert(seq![done, done] =~= seq![done] + seq![done]);
            lemma_run_first(start, absent, seq![done, absent, done, done]);
            lemma_run_first(making, done, seq![absent, done, done]);
            lemma_run_first(probing, absent, seq![done, done]);
            lemma_run_first(keeping, done, seq![done]);
            lemma_opening_first(before, start, absent, seq![done, absent, done, done]);
            lemma_opening_first(before, making, done, seq![absent, done, done]);
            lemma_opening_first(made, probing, absent, seq![done, done]);
            lemma_opening_first(made, keeping, done, seq![done]);
            lemma_opening_first(kept, verifying, done, none);
        }
    }
}

/// An opening that fails leaves the open index as it was, unless it is the
/// verification that fails: what a failed step leaves changed is never the
/// stores, and no step but the keeping changes which index is open.
pub proof fn lemma_failed_opening_keeps_nothing(
    o: OpeningStores,
    s: IndexOpeningView,
    event: OpenEvent,
)
    ensures
        !(event is Done) ==> o.after_open(s.pending(), event) == o,
        !(s.pending() is Keep) ==> o.after_open(s.pending(), event).stores == o.stores,
{
}

/// What holds of the stores while an insert is in state `s`: the stores are
/// paired; once the table is ensured there is one; once the index is opened
/// it is open; the row whose vector is about to be added is there; and once
/// the insert is complete the snapshot file holds what the index holds.
pub open spec fn insert_coupled(s: InsertBatchView, stores: Stores) -> bool {
    &&& stores.paired()
    &&& match s.phase {
        InsertPhase::Acquiring | InsertPhase::EnsuringTable => true,
        InsertPhase::OpeningIndex => stores.table is Some,
        InsertPhase::Reserving | InsertPhase::InsertingRow | InsertPhase::Saving => {
            stores.table is Some && stores.index is Some
        },
        InsertPhase::CheckingVector { row_id } | InsertPhase::AddingVector { row_id } => {
            stores.table is Some && stores.index is Some && stores.has_row(row_id)
        },
        InsertPhase::Releasing { ending } => ending is Completed ==> stores.index is Some
            && stores.snapshot == stores.index,
    }
}

/// Rows that stay keep keys paired.
proof fn lemma_pairs_kept(before: Stores, after: Stores, keys: Multiset<u64>)
    requires
        before.pairs(keys),
        forall|id: i64| before.has_row(id) ==> after.has_row(id),
    ensures
        after.pairs(keys),
{
    assert forall|key: u64| #[trigger] keys.count(key) > 0 implies after.has_row(
        id_of(key as int) as i64,
    ) by {
        assert(before.has_row(id_of(key as int) as i64));
    }
}

/// Every step of an insert keeps the stores paired: whatever becomes of the
/// operation in flight, no key is in the snapshot file, nor in the open
/// index, without its row in the table.
pub proof fn lemma_insert_step_keeps_paired(s: InsertBatchView, stores: Stores, event: InsertEvent)
    requires
        s.wf(),
        insert_coupled(s, stores),
    ensures
        stores.after_insert(s.pending(), event).paired(),
        s.step(event) matches InsertProgressView::Next { machine, .. } ==> insert_coupled(
            machine,
            stores.after_insert(s.pending(), event),
        ),
{
    let after = stores.after_insert(s.pending(), event);
    match (s.phase, event) {
        (InsertPhase::InsertingRow, InsertEvent::RowInserted { .. })
        | (InsertPhase::EnsuringTable, InsertEvent::Done) => {
            assert forall|id: i64| stores.has_row(id) implies after.has_row(id) by {}
            if let Some(keys) = stores.snapshot {
                lemma_pairs_kept(stores, after, keys);
            }
            if let Some(keys) = stores.index {
                lemma_pairs_kept(stores, after, keys);
            }
        },
        (InsertPhase::AddingVector { row_id }, InsertEvent::Done) => {
            lemma_id_round_trip(row_id as int);
            let added = key_of(row_id as int) as u64;
            assert forall|key: u64| #[trigger] after.index->0.count(key) > 0 implies after.has_row(
                id_of(key as int) as i64,
            ) by {
                if key != added {
                    assert(stores.index->0.count(key) > 0);
                }
            }
        },
        _ => {},
    }
}

/// However an insert goes, it leaves the stores paired: if every key had its
/// row before, then after any answers to any number of the insert's
/// operations every key in the snapshot file and in the open index has its
/// row; and an insert that succeeds has saved what the index holds.
pub proof fn lemma_insert_keeps_paired(s: InsertBatchView, stores: Stores, events: Seq<InsertEvent>)
    requires
        s.wf(),
        insert_coupled(s, stores),
    ensures
        stores.after_inserting(s, events).paired(),
        s.run(events) matches InsertProgressView::Finished { outcome: Ok(_) } ==> ({
            let after = stores.after_inserting(s, events);
            &&& after.index is Some
            &&& after.snapshot == after.index
        }),
    decreases events.len(),
{
    if events.len() > 0 {
        lemma_insert_step_keeps_paired(s, stores, events[0]);
        let after = stores.after_insert(s.pending(), events[0]);
        match s.step(events[0]) {
            InsertProgressView::Next { machine, .. } => {
                lemma_insert_keeps_paired(machine, after, events.drop_first());
            },
            InsertProgressView::Finished { .. } => {},
        }
    }
}

/// An insert may start on any stores that are paired.
pub proof fn lemma_insert_starts_coupled(
    collection: Seq<char>,
    config: IndexConfig,
    chunks: Seq<ChunkView>,
    stores: Stores,
)
    requires
        stores.paired(),
    ensures
        InsertBatchView::initial(collection, config, chunks).wf(),
        insert_coupled(InsertBatchView::initial(collection, config, chunks), stores),
        ids_are_new(InsertBatchView::initial(collection, config, chunks), stores, stores),
        holds_chunks(InsertBatchView::initial(collection, config, chunks), stores, stores),
{
}

impl Stores {
    /// Whether the table, where it assigns the id of a row, assigns one
    /// under which it holds no row yet, in every answer of `events` to an
    /// insert in state `s`.
    pub open spec fn assigns_fresh_ids(self, s: InsertBatchView, events: Seq<InsertEvent>) -> bool
        decreases events.len(),
    {
        events.len() > 0 ==> {
            &&& s.pending() matches InsertActionView::InsertRow { explicit_id: None, .. }
                ==> (events[0] matches InsertEvent::RowInserted { row_id } ==> !self.has_row(
                row_id,
            ))
            &&& s.step(events[0]) matches InsertProgressView::Next { machine, .. }
                ==> self.after_insert(s.pending(), events[0]).assigns_fresh_ids(
                machine,
                events.drop_first(),
            )
        }
    }
}

/// Whether the table is to assign the id of every chunk.
pub open spec fn all_assigned(chunks: Seq<ChunkView>) -> bool {
    forall|i: int| 0 <= i < chunks.len() ==> (#[trigger] chunks[i]).explicit_id is None
}

/// What holds of the ids of an insert in state `s` while the table assigns
/// fresh ids: the table still holds what it held `before`, the committed ids
/// differ from each other, and each of them, like the id of the row whose
/// vector is about to be added, is held now and was not held before.
pub open spec fn ids_are_new(s: InsertBatchView, before: Stores, now: Stores) -> bool {
    &&& forall|id: i64| before.has_row(id) ==> now.has_row(id)
    &&& s.committed.no_duplicates()
    &&& forall|i: int|
        0 <= i < s.committed.len() ==> now.has_row(#[trigger] s.committed[i]) && !before.has_row(
            s.committed[i],
        )
    &&& s.row_in_hand() matches Some(row_id) ==> {
        &&& now.has_row(row_id)
        &&& !before.has_row(row_id)
        &&& !s.committed.contains(row_id)
    }
}

/// Every step of an insert whose ids the table assigns afresh keeps the ids
/// new.
proof fn lemma_step_keeps_ids_new(
    s: InsertBatchView,
    before: Stores,
    now: Stores,
    event: InsertEvent,
)
    requires
        s.wf(),
        all_assigned(s.chunks),
        ids_are_new(s, before, now),
        s.pending() matches InsertActionView::InsertRow { explicit_id: None, .. } ==> (event
            matches InsertEvent::RowInserted { row_id } ==> !now.has_row(row_id)),
    ensures
        s.step(event) matches InsertProgressView::Next { machine, .. } ==> ids_are_new(
            machine,
            before,
            now.after_insert(s.pending(), event),
        ),
{
    let after = now.after_insert(s.pending(), event);
    if let InsertProgressView::Next { machine, .. } = s.step(event) {
        match (s.phase, event) {
            (InsertPhase::InsertingRow, InsertEvent::RowInserted { row_id }) => {
                assert(s.chunks[s.committed.len() as int].explicit_id is None);
                assert(!now.has_row(row_id));
                assert(after.has_row(row_id));
                if s.committed.contains(row_id) {
                    let i = choose|i: int| 0 <= i < s.committed.len() && s.committed[i] == row_id;
                    assert(now.has_row(s.committed[i]));
                }
            },
            (InsertPhase::AddingVector { row_id }, InsertEvent::Done) => {
                let grown = s.committed.push(row_id);
                assert(machine.committed == grown);
                assert forall|i: int, j: int|
                    0 <= i < grown.len() && 0 <= j < grown.len() && i != j implies grown[i]
                    != grown[j] by {
                    if i < s.committed.len() && j < s.committed.len() {
                        assert(s.committed[i] != s.committed[j]);
                    } else if i < s.committed.len() {
                        assert(s.committed.contains(s.committed[i]));
                    } else {
                        assert(s.committed.contains(s.committed[j]));
                    }
                }
                assert forall|i: int| 0 <= i < grown.len() implies after.has_row(
                    #[trigger] grown[i],
                ) && !before.has_row(grown[i]) by {
                    if i < s.committed.len() {
                        assert(grown[i] == s.committed[i]);
                    }
                }
            },
            _ => {},
        }
    }
}

/// Ids are never handed out twice: in an insert that leaves the ids to a
/// table which assigns fresh ones, the ids returned differ from each other,
/// and none of them was held by the table before the insert, so that they
/// differ from the ids of every chunk inserted before as well.
pub proof fn lemma_assigned_ids_are_new(
    s: InsertBatchView,
    before: Stores,
    now: Stores,
    events: Seq<InsertEvent>,
)
    requires
        s.wf(),
        all_assigned(s.chunks),
        ids_are_new(s, before, now),
        now.assigns_fresh_ids(s, events),
    ensures
        s.run(events) matches InsertProgressView::Finished { outcome: Ok(ids) } ==> {
            &&& ids.no_duplicates()
            &&& forall|i: int| 0 <= i < ids.len() ==> !before.has_row(#[trigger] ids[i])
        },
    decreases events.len(),
{
    if events.len() > 0 {
        lemma_step_keeps_ids_new(s, before, now, events[0]);
        lemma_step_preserves(s, events[0]);
        match s.step(events[0]) {
            InsertProgressView::Next { machine, .. } => {
                lemma_assigned_ids_are_new(
                    machine,
                    before,
                    now.after_insert(s.pending(), events[0]),
                    events.drop_first(),
                );
            },
            InsertProgressView::Finished { .. } => {},
        }
    }
}

/// A row is read back as it was inserted: once the row of a chunk is
/// inserted under an id, the key that stands for that id leads back to a row
/// with the chunk's text and metadata, and no other row has changed.
pub proof fn lemma_row_is_read_back(s: InsertBatchView, stores: Stores, row_id: i64)
    requires
        s.wf(),
        s.phase is InsertingRow,
    ensures
        ({
            let chunk = s.chunks[s.committed.len() as int];
            let after = stores.after_insert(s.pending(), InsertEvent::RowInserted { row_id });
            let key = key_of(row_id as int);
            &&& after.has_row(id_of(key) as i64)
            &&& after.table->0[id_of(key) as i64] == (RowView {
                text: chunk.text,
                metadata: chunk.metadata,
            })
            &&& forall|id: i64|
                id != row_id && #[trigger] stores.has_row(id) ==> after.has_row(id)
                    && after.table->0[id] == stores.table->0[id]
        }),
{
    lemma_id_round_trip(row_id as int);
}

/// The row that a chunk is inserted as.
pub open spec fn row_of(chunk: ChunkView) -> RowView {
    RowView { text: chunk.text, metadata: chunk.metadata }
}

/// Whether the chunk at position `i` is the last one to be inserted under
/// its id: no later chunk is committed under the same id, nor is the row of
/// one in hand.
pub open spec fn last_under_its_id(s: InsertBatchView, i: int) -> bool {
    &&& forall|j: int| i < j < s.committed.len() ==> s.committed[j] != s.committed[i]
    &&& s.row_in_hand() != Some(s.committed[i])
}

/// What the stores hold of an insert in state `s` that started on the
/// stores `before`, unless the insert has failed: the row and the vector of
/// every committed chunk, the row being the chunk's own unless a later chunk
/// took the same id; the row of the chunk in hand; and every other row as it
/// was.
pub open spec fn holds_chunks(s: InsertBatchView, before: Stores, now: Stores) -> bool {
    ||| s.phase matches InsertPhase::Releasing { ending } && !(ending is Completed)
    ||| holds_chunks_of(s, before, now)
}

/// What the stores hold of an insert that has not failed.
pub open spec fn holds_chunks_of(s: InsertBatchView, before: Stores, now: Stores) -> bool {
    &&& forall|i: int|
        0 <= i < s.committed.len() ==> {
            &&& now.has_row(#[trigger] s.committed[i])
            &&& now.open_keys().count(key_of(s.committed[i] as int) as u64) > 0
            &&& last_under_its_id(s, i) ==> now.table->0[s.committed[i]] == row_of(s.chunks[i])
        }
    &&& s.row_in_hand() matches Some(id) ==> now.has_row(id) && now.table->0[id] == row_of(
        s.chunks[s.committed.len() as int],
    )
    &&& forall|id: i64|
        #[trigger] before.has_row(id) && !s.committed.contains(id) && s.row_in_hand() != Some(id)
            ==> now.has_row(id) && now.table->0[id] == before.table->0[id]
}

/// Every step of an insert keeps what the stores hold of it.
pub proof fn lemma_step_holds_chunks(
    s: InsertBatchView,
    before: Stores,
    now: Stores,
    event: InsertEvent,
)
    requires
        s.wf(),
        holds_chunks(s, before, now),
    ensures
        s.step(event) matches InsertProgressView::Next { machine, .. } ==> holds_chunks(
            machine,
            before,
            now.after_insert(s.pending(), event),
        ),
{
    let after = now.after_insert(s.pending(), event);
    if s.answered_by(event) && !(s.phase is Releasing) {
        let machine = s.succeeded(event);
        match (s.phase, event) {
            (InsertPhase::InsertingRow, InsertEvent::RowInserted { row_id }) => {
                assert forall|i: int| 0 <= i < machine.committed.len() implies {
                    &&& after.has_row(#[trigger] machine.committed[i])
                    &&& after.open_keys().count(key_of(machine.committed[i] as int) as u64) > 0
                    &&& last_under_its_id(machine, i) ==> after.table->0[machine.committed[i]]
                        == row_of(machine.chunks[i])
                } by {
                    assert(now.has_row(s.committed[i]));
                    if last_under_its_id(machine, i) {
                        assert(last_under_its_id(s, i));
                    }
                }
                assert forall|id: i64|
                    #[trigger] before.has_row(id) && !machine.committed.contains(id)
                        && machine.row_in_hand() != Some(id) implies after.has_row(id)
                    && after.table->0[id] == before.table->0[id] by {
                    assert(now.has_row(id));
                }
            },
            (InsertPhase::AddingVector { row_id }, InsertEvent::Done) => {
                lemma_id_round_trip(row_id as int);
                let n = s.committed.len() as int;
                assert(machine.committed == s.committed.push(row_id));
                assert forall|i: int| 0 <= i < machine.committed.len() implies {
                    &&& after.has_row(#[trigger] machine.committed[i])
                    &&& after.open_keys().count(key_of(machine.committed[i] as int) as u64) > 0
                    &&& last_under_its_id(machine, i) ==> after.table->0[machine.committed[i]]
                        == row_of(machine.chunks[i])
                } by {
                    if i < n {
                        assert(machine.committed[i] == s.committed[i]);
                        assert(now.has_row(s.committed[i]));
                        if last_under_its_id(machine, i) {
                            assert(machine.committed[n] != machine.committed[i]);
                            assert forall|j: int| i < j < s.committed.len() implies s.committed[j]
                                != s.committed[i] by {
                                assert(machine.committed[j] != machine.committed[i]);
                            }
                            assert(last_under_its_id(s, i));
                        }
                    }
                }
                assert forall|id: i64|
                    #[trigger] before.has_row(id) && !machine.committed.contains(id)
                        && machine.row_in_hand() != Some(id) implies after.has_row(id)
                    && after.table->0[id] == before.table->0[id] by {
                    assert(machine.committed[n] == row_id);
                    if s.committed.contains(id) {
                        let i = choose|i: int| 0 <= i < s.committed.len() && s.committed[i] == id;
                        assert(machine.committed[i] == id);
                    }
                    assert(now.has_row(id));
                }
            },
            (InsertPhase::OpeningIndex, InsertEvent::Done)
            | (InsertPhase::EnsuringTable, InsertEvent::Done) => {
                assert forall|id: i64|
                    #[trigger] before.has_row(id) && !machine.committed.contains(id)
                        && machine.row_in_hand() != Some(id) implies after.has_row(id)
                    && after.table->0[id] == before.table->0[id] by {
                    assert(now.has_row(id));
                }
            },
            _ => {
                assert(after.table == now.table);
                assert(after.open_keys() == now.open_keys());
                assert forall|i: int| 0 <= i < machine.committed.len() implies {
                    &&& after.has_row(#[trigger] machine.committed[i])
                    &&& after.open_keys().count(key_of(machine.committed[i] as int) as u64) > 0
                    &&& last_under_its_id(machine, i) ==> after.table->0[machine.committed[i]]
                        == row_of(machine.chunks[i])
                } by {
                    assert(now.has_row(s.committed[i]));
                    if last_under_its_id(machine, i) {
                        assert(last_under_its_id(s, i));
                    }
                }
                assert forall|id: i64|
                    #[trigger] before.has_row(id) && !machine.committed.contains(id)
                        && machine.row_in_hand() != Some(id) implies after.has_row(id)
                    && after.table->0[id] == before.table->0[id] by {
                    assert(now.has_row(id));
                }
            },
        }
    }
}

/// What is inserted is there: an insert that succeeds leaves in the table a
/// row under the id of every chunk, and in the index and in the snapshot
/// file a vector under the key of that id. The row has the chunk's text and
/// metadata, unless a later chunk of the insert took the same id; and every
/// row that the table held before under another id is as it was.
pub proof fn lemma_insert_commits_chunks(
    s: InsertBatchView,
    before: Stores,
    now: Stores,
    events: Seq<InsertEvent>,
)
    requires
        s.wf(),
        holds_chunks(s, before, now),
        insert_coupled(s, now),
    ensures
        s.run(events) matches InsertProgressView::Finished { outcome: Ok(ids) } ==> ({
            let after = now.after_inserting(s, events);
            &&& ids.len() == s.chunks.len()
            &&& after.snapshot == after.index
            &&& forall|i: int|
                0 <= i < ids.len() ==> {
                    &&& after.has_row(#[trigger] ids[i])
                    &&& after.open_keys().count(key_of(ids[i] as int) as u64) > 0
                    &&& (forall|j: int| i < j < ids.len() ==> ids[j] != ids[i])
                        ==> after.table->0[ids[i]] == row_of(s.chunks[i])
                }
            &&& forall|id: i64|
                #[trigger] before.has_row(id) && !ids.contains(id) ==> after.has_row(id)
                    && after.table->0[id] == before.table->0[id]
        }),
    decreases events.len(),
{
    if events.len() > 0 {
        let after = now.after_insert(s.pending(), events[0]);
        lemma_step_holds_chunks(s, before, now, events[0]);
        lemma_insert_step_keeps_paired(s, now, events[0]);
        lemma_step_preserves(s, events[0]);
        match s.step(events[0]) {
            InsertProgressView::Next { machine, .. } => {
                lemma_insert_commits_chunks(machine, before, after, events.drop_first());
            },
            InsertProgressView::Finished { outcome } => {
                if let Ok(ids) = outcome {
                    assert(after == now);
                    assert(ids == s.committed);
                    assert forall|i: int| 0 <= i < ids.len() implies {
                        &&& after.has_row(#[trigger] ids[i])
                        &&& after.open_keys().count(key_of(ids[i] as int) as u64) > 0
                        &&& (forall|j: int| i < j < ids.len() ==> ids[j] != ids[i])
                            ==> after.table->0[ids[i]] == row_of(s.chunks[i])
                    } by {
                        assert(now.has_row(s.committed[i]));
                        if forall|j: int| i < j < ids.len() ==> ids[j] != ids[i] {
                            assert(last_under_its_id(s, i));
                        }
                    }
                }
            },
        }
    }
}

impl Stores {
    /// Whether every row has a vector in the snapshot file: together with
    /// [`Stores::paired`], that the table and the snapshot file hold the
    /// same chunks.
    pub open spec fn saved(self) -> bool {
        forall|id: i64| #[trigger]
            self.has_row(id) ==> self.snapshot is Some && self.snapshot->0.count(
                key_of(id as int) as u64,
            ) > 0
    }

    /// Whether the index that is open, where one is, holds what the
    /// snapshot file holds.
    pub open spec fn in_step(self) -> bool {
        self.index matches Some(keys) ==> self.snapshot == Some(keys)
    }
}

/// What holds of the rows while an insert that started on stores whose rows
/// all had their vectors is in state `s`, unless the insert has failed:
/// every row but the one in hand has a vector in the index that is open, or
/// that will be opened.
pub open spec fn rows_covered(s: InsertBatchView, now: Stores) -> bool {
    ||| s.phase matches InsertPhase::Releasing { ending } && !(ending is Completed)
    ||| forall|id: i64| #[trigger]
        now.has_row(id) && s.row_in_hand() != Some(id) ==> now.opened().open_keys().count(
            key_of(id as int) as u64,
        ) > 0
}

/// Every step of an insert keeps the rows covered.
proof fn lemma_step_keeps_rows_covered(s: InsertBatchView, now: Stores, event: InsertEvent)
    requires
        s.wf(),
        insert_coupled(s, now),
        rows_covered(s, now),
    ensures
        s.step(event) matches InsertProgressView::Next { machine, .. } ==> rows_covered(
            machine,
            now.after_insert(s.pending(), event),
        ),
{
    let after = now.after_insert(s.pending(), event);
    if s.answered_by(event) && !(s.phase is Releasing) {
        let machine = s.succeeded(event);
        assert forall|id: i64| #[trigger]
            after.has_row(id) && machine.row_in_hand() != Some(id) implies after.opened().open_keys().count(
            key_of(id as int) as u64,
        ) > 0 by {
            match (s.phase, event) {
                (InsertPhase::InsertingRow, InsertEvent::RowInserted { row_id }) => {
                    assert(now.has_row(id));
                },
                (InsertPhase::AddingVector { row_id }, InsertEvent::Done) => {
                    if id != row_id {
                        assert(now.has_row(id));
                    }
                },
                _ => {
                    assert(now.has_row(id));
                },
            }
        }
    }
}

/// What was level stays level: where the table and the snapshot file held
/// the same chunks before an insert, and the open index held what the
/// snapshot file held, an insert that succeeds leaves the table and the
/// snapshot file holding the same chunks again, every key with its row and
/// every row with its vector.
pub proof fn lemma_insert_keeps_level(
    collection: Seq<char>,
    config: IndexConfig,
    chunks: Seq<ChunkView>,
    stores: Stores,
    events: Seq<InsertEvent>,
)
    requires
        stores.paired(),
        stores.saved(),
        stores.in_step(),
    ensures
        ({
            let start = InsertBatchView::initial(collection, config, chunks);
            start.run(events) matches InsertProgressView::Finished { outcome: Ok(_) } ==> {
                let after = stores.after_inserting(start, events);
                &&& after.paired()
                &&& after.saved()
                &&& after.in_step()
            }
        }),
{
    let start = InsertBatchView::initial(collection, config, chunks);
    assert(rows_covered(start, stores)) by {
        assert forall|id: i64| #[trigger] stores.has_row(id) implies stores.opened().open_keys().count(
            key_of(id as int) as u64,
        ) > 0 by {}
    }
    lemma_run_keeps_rows_covered(start, stores, events);
    lemma_insert_keeps_paired(start, stores, events);
}

/// However an insert goes on from state `s`, where it succeeds every row
/// has a vector in the snapshot file.
proof fn lemma_run_keeps_rows_covered(s: InsertBatchView, now: Stores, events: Seq<InsertEvent>)
    requires
        s.wf(),
        insert_coupled(s, now),
        rows_covered(s, now),
    ensures
        s.run(events) matches InsertProgressView::Finished { outcome: Ok(_) } ==> now.after_inserting(
            s,
            events,
        ).saved(),
    decreases events.len(),
{
    if events.len() > 0 {
        let after = now.after_insert(s.pending(), events[0]);
        lemma_step_keeps_rows_covered(s, now, events[0]);
        lemma_insert_step_keeps_paired(s, now, events[0]);
        lemma_step_preserves(s, events[0]);
        match s.step(events[0]) {
            InsertProgressView::Next { machine, .. } => {
                lemma_run_keeps_rows_covered(machine, after, events.drop_first());
            },
            InsertProgressView::Finished { outcome } => {
                if outcome is Ok {
                    assert(after == now);
                    assert(now.opened() == now);
                    assert forall|id: i64| #[trigger] now.has_row(id) implies now.snapshot
                        is Some && now.snapshot->0.count(key_of(id as int) as u64) > 0 by {}
                }
            },
        }
    }
}

/// A vector that is refused leaves the index unmodified: where the check
/// of a vector fails, as it does for one whose length is not the
/// established number of dimensions, neither the check nor what follows it
/// changes the stores, and the insert reports the position of the chunk,
/// the ids committed before it, and the fault.
pub proof fn lemma_refused_vector_changes_nothing(
    s: InsertBatchView,
    stores: Stores,
    fault: Fault,
    released: InsertEvent,
)
    requires
        s.wf(),
        s.pending() is CheckVector,
    ensures
        ({
            let failed = InsertEvent::Failed { fault };
            let events = seq![failed, released];
            &&& stores.after_insert(s.pending(), InsertEvent::Done) == stores
            &&& stores.after_insert(s.pending(), failed) == stores
            &&& stores.after_inserting(s, events) == stores
            &&& s.run(events) == (InsertProgressView::Finished {
                outcome: Err(
                    StoreErrorView::PartialBatchFailure {
                        failed_index: s.committed.len(),
                        committed: s.committed,
                        cause: fault,
                    },
                ),
            })
        }),
{
    let failed = InsertEvent::Failed { fault };
    let events = seq![failed, released];
    let releasing = s.at(
        InsertPhase::Releasing { ending: InsertEnding::StoppedPartway { fault } },
    );
    assert(events.drop_first() =~= seq![released]);
    assert(seq![released].drop_first() =~= Seq::<InsertEvent>::empty());
    assert(s.step(failed) == (InsertProgressView::Next {
        machine: releasing,
        action: releasing.pending(),
    }));
    assert(releasing.run(seq![released]) == releasing.step(released));
    assert(s.run(events) == releasing.run(events.drop_first()));
    assert(stores.after_inserting(releasing, seq![released]) == stores);
    assert(stores.after_inserting(s, events) == stores.after_inserting(
        releasing,
        events.drop_first(),
    ));
}

/// A search changes nothing that lasts: it opens the index and creates the
/// table where there is none, and leaves every row, every key and the
/// snapshot file as they are.
pub proof fn lemma_search_keeps_stores(
    stores: Stores,
    action: SearchActionView,
    event: SearchEventView,
)
    ensures
        ({
            let after = stores.after_search(action, event);
            &&& after.snapshot == stores.snapshot
            &&& stores.index is Some ==> after.index == stores.index
            &&& stores.table is Some ==> after.table == stores.table
            &&& stores.table is None ==> after.table is None || after.table == Some(
                Map::<i64, RowView>::empty(),
            )
            &&& stores.paired() ==> after.paired()
        }),
{
    let after = stores.after_search(action, event);
    if stores.paired() {
        assert forall|id: i64| stores.has_row(id) implies after.has_row(id) by {}
        if let Some(keys) = after.snapshot {
            lemma_pairs_kept(stores, after, keys);
        }
        if let Some(keys) = stores.index {
            lemma_pairs_kept(stores, after, keys);
        }
    }
}

/// The rows that the table holds for `found`, match by match: the row under
/// the id that the key of the match stands for, if there is one.
pub open spec fn table_rows(stores: Stores, found: Seq<Match>) -> Seq<Option<RowView>> {
    Seq::new(
        found.len(),
        |j: int|
            {
                let id = id_of(found[j].key as int) as i64;
                if stores.has_row(id) {
                    Some(stores.table->0[id])
                } else {
                    None
                }
            },
    )
}

/// Where every match has a row, every match is a hit.
proof fn lemma_all_found(found: Seq<Match>, rows: Seq<Option<RowView>>, count: nat)
    requires
        count <= rows.len(),
        forall|j: int| 0 <= j < count ==> (#[trigger] rows[j]) is Some,
    ensures
        hydrated(found, rows, count).len() == count,
        forall|j: int|
            0 <= j < count ==> #[trigger] hydrated(found, rows, count)[j] == (SearchHitView {
                text: rows[j]->0.text,
                metadata: rows[j]->0.metadata,
                score: found[j].score,
            }),
    decreases count,
{
    if count > 0 {
        lemma_all_found(found, rows, (count - 1) as nat);
        assert(rows[count - 1] is Some);
    }
}

/// In paired stores a search drops nothing: where every key has its row,
/// and the index returns keys that it holds, every match of a query is
/// among its results, in the order of the index, with the text and the
/// metadata that the table holds under the id of its key, and with its
/// score.
pub proof fn lemma_paired_search_drops_nothing(stores: Stores, answer: QueryAnswer, limit: nat)
    requires
        stores.paired(),
        stores.index is Some,
        forall|i: int|
            0 <= i < answer.keys.len() ==> stores.open_keys().count(#[trigger] answer.keys[i]) > 0,
        answer.rows == table_rows(stores, answer.candidates(limit)),
    ensures
        answer.fits(limit),
        answer.hits(limit).len() == answer.candidates(limit).len(),
        forall|j: int|
            0 <= j < answer.candidates(limit).len() ==> {
                let id = id_of(answer.keys[j] as int) as i64;
                &&& stores.has_row(id)
                &&& #[trigger] answer.hits(limit)[j] == (SearchHitView {
                    text: stores.table->0[id].text,
                    metadata: stores.table->0[id].metadata,
                    score: answer.scores[j],
                })
            },
{
    let found = answer.candidates(limit);
    let rows = answer.rows;
    assert forall|j: int| 0 <= j < rows.len() implies (#[trigger] rows[j]) is Some by {
        assert(found[j].key == answer.keys[j]);
        assert(stores.open_keys().count(answer.keys[j]) > 0);
        assert(stores.has_row(id_of(found[j].key as int) as i64));
    }
    lemma_all_found(found, rows, rows.len());
    assert forall|j: int| 0 <= j < found.len() implies {
        let id = id_of(answer.keys[j] as int) as i64;
        &&& stores.has_row(id)
        &&& #[trigger] answer.hits(limit)[j] == (SearchHitView {
            text: stores.table->0[id].text,
            metadata: stores.table->0[id].metadata,
            score: answer.scores[j],
        })
    } by {
        assert(found[j].key == answer.keys[j]);
        assert(found[j].score == answer.scores[j]);
        assert(rows[j] is Some);
        assert(hydrated(found, rows, rows.len())[j] == (SearchHitView {
            text: rows[j]->0.text,
            metadata: rows[j]->0.metadata,
            score: found[j].score,
        }));
    }
}

/// A search in a collection that was never created finds nothing and is no
/// error: the index that is opened holds no key, so that whatever answers it
/// gives from what it holds are empty, and the result of every query is
/// empty.
pub proof fn lemma_never_created_finds_nothing(
    collection: Seq<char>,
    config: IndexConfig,
    queries: nat,
    limit: nat,
    answers: Seq<QueryAnswer>,
    released: SearchEventView,
)
    requires
        limit > 0,
        answers.len() == queries,
        forall|q: int, i: int|
            0 <= q < answers.len() && 0 <= i < answers[q].keys.len()
                ==> Stores::absent().opened().open_keys().count(#[trigger] answers[q].keys[i]) > 0,
        forall|q: int| 0 <= q < answers.len() ==> (#[trigger] answers[q]).fits(limit),
    ensures
        SearchBatchView::initial(collection, config, queries, limit).run(
            events_through(answers).push(released),
        ) == (SearchProgressView::Finished { outcome: Ok(no_hits(queries)) }),
{
    assert forall|q: int| 0 <= q < answers.len() implies (#[trigger] answers[q]).keys.len() == 0
        && answers[q].rows.len() == 0 by {
        if answers[q].keys.len() > 0 {
            assert(Stores::absent().opened().open_keys().count(answers[q].keys[0]) > 0);
        }
        assert(answers[q].fits(limit));
    }
    lemma_empty_index_finds_nothing(collection, config, queries, limit, answers, released);
}

/// Running through a first event and then the rest changes the stores as
/// one step and then the rest do.
proof fn lemma_dropping_first(
    stores: Stores,
    s: DropCollectionView,
    first: DropEvent,
    rest: Seq<DropEvent>,
)
    ensures
        stores.after_dropping(s, seq![first] + rest) == match s.step(first) {
            DropProgressView::Next { machine, .. } => stores.after_drop(
                s.pending(),
                first,
            ).after_dropping(machine, rest),
            DropProgressView::Finished { .. } => stores.after_drop(s.pending(), first),
        },
{
    let events = seq![first] + rest;
    assert(events[0] == first);
    assert(events.drop_first() =~= rest);
}

/// The events of a drop that succeeds on `stores`, answered as the stores
/// are: the snapshot file is found where there is one.
pub open spec fn drop_events(stores: Stores, released: DropEvent) -> Seq<DropEvent> {
    success_events(stores.snapshot is Some, released)
}

/// A drop leaves nothing behind: once its operations have succeeded there
/// is neither table nor snapshot file nor open index, whatever was there
/// before.
pub proof fn lemma_drop_leaves_nothing(collection: Seq<char>, stores: Stores, released: DropEvent)
    ensures
        ({
            let events = drop_events(stores, released);
            let start = DropCollectionView::initial(collection);
            let after = stores.after_dropping(start, events);
            &&& start.run(events) == (DropProgressView::Finished { outcome: Ok(()) })
            &&& after == Stores::absent()
            &&& after.paired()
        }),
{
    let done = DropEvent::Done;
    let absent = DropEvent::Absent;
    let none = Seq::<DropEvent>::empty();
    let start = DropCollectionView::initial(collection);
    lemma_drop_succeeds(collection, stores.snapshot is Some, released);
    let closing = start.at(DropPhase::ClosingIndex);
    let dropping = start.at(DropPhase::DroppingTable);
    let probing = start.at(DropPhase::ProbingSnapshot);
    let removing = start.at(DropPhase::RemovingSnapshot);
    let releasing = start.at(DropPhase::Releasing { failure: None });
    let closed = Stores { index: None, ..stores };
    let table_gone = Stores { table: None, ..closed };
    assert(seq![released] =~= seq![released] + none);
    lemma_dropping_first(Stores::absent(), releasing, released, none);
    if stores.snapshot is Some {
        assert(drop_events(stores, released) =~= seq![done] + seq![
            done,
            done,
            done,
            done,
            released,
        ]);
        assert(seq![done, done, done, done, released] =~= seq![done] + seq![
            done,
            done,
            done,
            released,
        ]);
        assert(seq![done, done, done, released] =~= seq![done] + seq![done, done, released]);
        assert(seq![done, done, released] =~= seq![done] + seq![done, released]);
        assert(seq![done, released] =~= seq![done] + seq![released]);
        lemma_dropping_first(stores, start, done, seq![done, done, done, done, released]);
        lemma_dropping_first(stores, closing, done, seq![done, done, done, released]);
        lemma_dropping_first(closed, dropping, done, seq![done, done, released]);
        lemma_dropping_first(table_gone, probing, done, seq![done, released]);
        lemma_dropping_first(table_gone, removing, done, seq![released]);
    } else {
        assert(drop_events(stores, released) =~= seq![done] + seq![
            done,
            done,
            absent,
            released,
        ]);
        assert(seq![done, done, absent, released] =~= seq![done] + seq![done, absent, released]);
        assert(seq![done, absent, released] =~= seq![done] + seq![absent, released]);
        assert(seq![absent, released] =~= seq![absent] + seq![released]);
        lemma_dropping_first(stores, start, done, seq![done, done, absent, released]);
        lemma_dropping_first(stores, closing, done, seq![done, absent, released]);
        lemma_dropping_first(closed, dropping, done, seq![absent, released]);
        lemma_dropping_first(table_gone, probing, absent, seq![released]);
    }
}

/// Dropping twice is dropping once: a second drop right after the first
/// succeeds as well, and leaves what the first left, which is nothing.
pub proof fn lemma_drop_twice(
    collection: Seq<char>,
    stores: Stores,
    released: DropEvent,
    released_again: DropEvent,
)
    ensures
        ({
            let start = DropCollectionView::initial(collection);
            let once = stores.after_dropping(start, drop_events(stores, released));
            let twice = once.after_dropping(start, drop_events(once, released_again));
            &&& start.run(drop_events(stores, released)) == (DropProgressView::Finished {
                outcome: Ok(()),
            })
            &&& start.run(drop_events(once, released_again)) == (DropProgressView::Finished {
                outcome: Ok(()),
            })
            &&& twice == once
            &&& twice.table is None
            &&& twice.snapshot is None
            &&& twice.index is None
        }),
{
    let start = DropCollectionView::initial(collection);
    let once = stores.after_dropping(start, drop_events(stores, released));
    lemma_drop_leaves_nothing(collection, stores, released);
    lemma_drop_leaves_nothing(collection, once, released_again);
}

} // verus!
