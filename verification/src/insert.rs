//! The coordinator of an insert.
//!
//! An insert of a batch of chunks into a collection is a fixed sequence of
//! operations:
//!
//! 1. the collection is acquired, for this insert alone,
//! 2. the table is created unless it exists, the index is opened, from its
//!    snapshot where it is not open already and there is one, and capacity
//!    is reserved for as many vectors as the batch has chunks,
//! 3. for each chunk in input order, its row is inserted, and then its
//!    vector is checked and added under the key of the id that the table
//!    returned,
//! 4. the index is saved, once,
//! 5. the collection is released.
//!
//! The row comes first: a row without a vector is a chunk that is not indexed
//! yet, while a vector without a row could never be answered with a text.
//! Whatever fails, a collection that was acquired is released before the
//! insert ends.
//!
//! [`InsertBatch`] is this sequence as a state machine. It names the
//! operation to perform next; the caller performs it and reports what
//! happened; the machine answers with the next operation, or with the
//! outcome of the whole insert.
use crate::config::IndexConfig;
use crate::error::{surfaced, Fault, StoreError, StoreErrorView};
use crate::keys::{id_of, index_key, key_of, lemma_id_round_trip};
use crate::naming::{snapshot_file, snapshot_file_of};
use crate::row::{copy_optional_text, optional_text, views};
use crate::sql::{create_table_of, create_table_statement, insert_row_of, insert_row_statement};
use vstd::prelude::*;

verus! {

/// A chunk to insert, without its embedding: the coordinator hands the
/// embedding to the index by the chunk's position in the batch.
#[derive(Debug, PartialEq, Eq)]
pub struct Chunk {
    /// The id the caller assigns, where the table is not to assign one. A
    /// row that holds the id already is replaced.
    pub explicit_id: Option<i64>,
    pub text: String,
    pub metadata: Option<String>,
}

/// Mathematical value of a [`Chunk`].
pub struct ChunkView {
    pub explicit_id: Option<i64>,
    pub text: Seq<char>,
    pub metadata: Option<Seq<char>>,
}

impl View for Chunk {
    type V = ChunkView;

    open spec fn view(&self) -> ChunkView {
        ChunkView {
            explicit_id: self.explicit_id,
            text: self.text@,
            metadata: optional_text(self.metadata),
        }
    }
}

/// How an insert has ended, but for the release of the collection.
#[derive(Debug, Clone, Copy, PartialEq, Eq, Structural)]
pub enum InsertEnding {
    /// Every chunk is committed and the index is saved.
    Completed,
    /// An operation before the first row failed.
    SetUpFailed { fault: Fault },
    /// The row or the vector of a chunk, or the save, failed.
    StoppedPartway { fault: Fault },
}

/// The operation of an insert that is in flight.
#[derive(Debug, Clone, Copy, PartialEq, Eq, Structural)]
pub enum InsertPhase {
    Acquiring,
    EnsuringTable,
    OpeningIndex,
    Reserving,
    /// The row of the first chunk that is not committed yet.
    InsertingRow,
    /// The check of the vector of that chunk, whose row the table holds
    /// under `row_id`.
    CheckingVector { row_id: i64 },
    /// The vector of that chunk.
    AddingVector { row_id: i64 },
    Saving,
    /// The release of the collection, after which the insert is over.
    Releasing { ending: InsertEnding },
}

/// An operation for the caller to perform.
#[derive(Debug, PartialEq, Eq)]
pub enum InsertAction {
    /// Hold `collection` for this insert alone: wait until
    /// [`crate::locks::LockTable::try_write`] grants it.
    Acquire { collection: String },
    /// Run `statement`, which creates the table unless it exists.
    EnsureTable { statement: String },
    /// Open the index of `collection`, whose snapshot file is `file`, under
    /// `config`, in the steps of [`crate::opening::IndexOpening`].
    OpenIndex { collection: String, file: String, config: IndexConfig },
    /// Reserve capacity for `additional` more vectors, as
    /// [`crate::index::IndexHandle::reserve_additional`] does.
    Reserve { additional: usize },
    /// Run `statement` to insert the row of the chunk at position `chunk`,
    /// binding `explicit_id` (where there is one), `text` and `metadata` in
    /// this order, and report the id that the statement returns.
    InsertRow {
        chunk: usize,
        statement: String,
        explicit_id: Option<i64>,
        text: String,
        metadata: Option<String>,
    },
    /// Decide whether the embedding of the chunk at position `chunk` may be
    /// added to the index under `key`, as
    /// [`crate::index::IndexHandle::check_add`] does.
    CheckVector { chunk: usize, key: u64 },
    /// Add the embedding of the chunk at position `chunk` to the index under
    /// `key`.
    AddVector { chunk: usize, key: u64 },
    /// Save the index to the snapshot `file`.
    SaveIndex { file: String },
    /// Let go of `collection`, as [`crate::locks::LockTable::release_write`] does.
    Release { collection: String },
}

/// Mathematical value of an [`InsertAction`].
pub enum InsertActionView {
    Acquire { collection: Seq<char> },
    EnsureTable { statement: Seq<char> },
    OpenIndex { collection: Seq<char>, file: Seq<char>, config: IndexConfig },
    Reserve { additional: nat },
    InsertRow {
        chunk: nat,
        statement: Seq<char>,
        explicit_id: Option<i64>,
        text: Seq<char>,
        metadata: Option<Seq<char>>,
    },
    CheckVector { chunk: nat, key: int },
    AddVector { chunk: nat, key: int },
    SaveIndex { file: Seq<char> },
    Release { collection: Seq<char> },
}

impl View for InsertAction {
    type V = InsertActionView;

    open spec fn view(&self) -> InsertActionView {
        match *self {
            InsertAction::Acquire { collection } => InsertActionView::Acquire {
                collection: collection@,
            },
            InsertAction::EnsureTable { statement } => InsertActionView::EnsureTable {
                statement: statement@,
            },
            InsertAction::OpenIndex { collection, file, config } => InsertActionView::OpenIndex {
                collection: collection@,
                file: file@,
                config,
            },
            InsertAction::Reserve { additional } => InsertActionView::Reserve {
                additional: additional as nat,
            },
            InsertAction::InsertRow { chunk, statement, explicit_id, text, metadata } => {
                InsertActionView::InsertRow {
                    chunk: chunk as nat,
                    statement: statement@,
                    explicit_id,
                    text: text@,
                    metadata: optional_text(metadata),
                }
            },
            InsertAction::CheckVector { chunk, key } => InsertActionView::CheckVector {
                chunk: chunk as nat,
                key: key as int,
            },
            InsertAction::AddVector { chunk, key } => InsertActionView::AddVector {
                chunk: chunk as nat,
                key: key as int,
            },
            InsertAction::SaveIndex { file } => InsertActionView::SaveIndex { file: file@ },
            InsertAction::Release { collection } => InsertActionView::Release {
                collection: collection@,
            },
        }
    }
}

/// What became of the operation in flight.
#[derive(Debug, Clone, Copy, PartialEq, Eq, Structural)]
pub enum InsertEvent {
    /// It succeeded, and it was not the insertion of a row.
    Done,
    /// The row was inserted, and the table holds it under `row_id`.
    RowInserted { row_id: i64 },
    /// It failed.
    Failed { fault: Fault },
}

/// Mathematical value of an [`InsertBatch`].
pub struct InsertBatchView {
    pub collection: Seq<char>,
    pub config: IndexConfig,
    pub chunks: Seq<ChunkView>,
    /// The ids of the chunks that are committed to both stores, in input
    /// order.
    pub committed: Seq<i64>,
    pub phase: InsertPhase,
}

/// Mathematical value of an [`InsertProgress`].
pub enum InsertProgressView {
    Next { machine: InsertBatchView, action: InsertActionView },
    Finished { outcome: Result<Seq<i64>, StoreErrorView> },
}

impl InsertBatchView {
    /// The committed ids are a prefix of the batch, and the phase fits them.
    pub open spec fn wf(self) -> bool {
        match self.phase {
            InsertPhase::Acquiring
            | InsertPhase::EnsuringTable
            | InsertPhase::OpeningIndex
            | InsertPhase::Reserving => self.committed.len() == 0,
            InsertPhase::InsertingRow
            | InsertPhase::CheckingVector { .. }
            | InsertPhase::AddingVector { .. } => self.committed.len() < self.chunks.len(),
            InsertPhase::Saving => self.committed.len() == self.chunks.len(),
            InsertPhase::Releasing { ending } => match ending {
                InsertEnding::Completed => self.committed.len() == self.chunks.len(),
                InsertEnding::SetUpFailed { .. } => self.committed.len() == 0,
                InsertEnding::StoppedPartway { .. } => self.committed.len() <= self.chunks.len(),
            },
        }
    }

    /// The state in which an insert starts.
    pub open spec fn initial(
        collection: Seq<char>,
        config: IndexConfig,
        chunks: Seq<ChunkView>,
    ) -> InsertBatchView {
        InsertBatchView {
            collection,
            config,
            chunks,
            committed: Seq::empty(),
            phase: InsertPhase::Acquiring,
        }
    }

    /// The operation in flight.
    pub open spec fn pending(self) -> InsertActionView {
        match self.phase {
            InsertPhase::Acquiring => InsertActionView::Acquire { collection: self.collection },
            InsertPhase::EnsuringTable => InsertActionView::EnsureTable {
                statement: create_table_of(self.collection),
            },
            InsertPhase::OpeningIndex => InsertActionView::OpenIndex {
                collection: self.collection,
                file: snapshot_file_of(self.collection),
                config: self.config,
            },
            InsertPhase::Reserving => InsertActionView::Reserve { additional: self.chunks.len() },
            InsertPhase::InsertingRow => {
                let chunk = self.chunks[self.committed.len() as int];
                InsertActionView::InsertRow {
                    chunk: self.committed.len(),
                    statement: insert_row_of(self.collection, chunk.explicit_id is Some),
                    explicit_id: chunk.explicit_id,
                    text: chunk.text,
                    metadata: chunk.metadata,
                }
            },
            InsertPhase::CheckingVector { row_id } => InsertActionView::CheckVector {
                chunk: self.committed.len(),
                key: key_of(row_id as int),
            },
            InsertPhase::AddingVector { row_id } => InsertActionView::AddVector {
                chunk: self.committed.len(),
                key: key_of(row_id as int),
            },
            InsertPhase::Saving => InsertActionView::SaveIndex {
                file: snapshot_file_of(self.collection),
            },
            InsertPhase::Releasing { .. } => InsertActionView::Release {
                collection: self.collection,
            },
        }
    }

    /// Whether the insert holds the collection.
    pub open spec fn holds_collection(self) -> bool {
        !(self.phase is Acquiring)
    }

    /// The id of the row whose vector is being checked or added, if any.
    pub open spec fn row_in_hand(self) -> Option<i64> {
        match self.phase {
            InsertPhase::CheckingVector { row_id } | InsertPhase::AddingVector { row_id } => Some(
                row_id,
            ),
            _ => None,
        }
    }

    /// Whether `event` reports the success of the operation in flight.
    pub open spec fn answered_by(self, event: InsertEvent) -> bool {
        match self.phase {
            InsertPhase::InsertingRow => match event {
                InsertEvent::RowInserted { row_id } => {
                    let explicit_id = self.chunks[self.committed.len() as int].explicit_id;
                    explicit_id is Some ==> explicit_id == Some(row_id)
                },
                _ => false,
            },
            _ => event is Done,
        }
    }

    /// The fault that `event` reports where it does not report success: the
    /// fault it names, and a storage fault where it is no answer to the
    /// operation in flight.
    pub open spec fn fault_of(event: InsertEvent) -> Fault {
        match event {
            InsertEvent::Failed { fault } => fault,
            _ => Fault::StorageIO,
        }
    }

    /// Where the insert stands while it goes on in state `self`.
    pub open spec fn going(self) -> InsertProgressView {
        InsertProgressView::Next { machine: self, action: self.pending() }
    }

    /// The state with the given phase.
    pub open spec fn at(self, phase: InsertPhase) -> InsertBatchView {
        InsertBatchView { phase, ..self }
    }

    /// The state in which the next chunk is begun, or the index saved where
    /// no chunk is left.
    pub open spec fn advanced(self) -> InsertBatchView {
        if self.committed.len() < self.chunks.len() {
            self.at(InsertPhase::InsertingRow)
        } else {
            self.at(InsertPhase::Saving)
        }
    }

    /// The state after the operation in flight has succeeded.
    pub open spec fn succeeded(self, event: InsertEvent) -> InsertBatchView {
        match self.phase {
            InsertPhase::Acquiring => self.at(InsertPhase::EnsuringTable),
            InsertPhase::EnsuringTable => self.at(InsertPhase::OpeningIndex),
            InsertPhase::OpeningIndex => self.at(InsertPhase::Reserving),
            InsertPhase::Reserving => self.advanced(),
            InsertPhase::InsertingRow => self.at(
                InsertPhase::CheckingVector { row_id: event->row_id },
            ),
            InsertPhase::CheckingVector { row_id } => self.at(InsertPhase::AddingVector { row_id }),
            InsertPhase::AddingVector { row_id } => InsertBatchView {
                committed: self.committed.push(row_id),
                ..self
            }.advanced(),
            InsertPhase::Saving => self.at(
                InsertPhase::Releasing { ending: InsertEnding::Completed },
            ),
            InsertPhase::Releasing { .. } => self,
        }
    }

    /// How the insert ends when the operation in flight fails with `fault`.
    pub open spec fn ending_on(self, fault: Fault) -> InsertEnding {
        match self.phase {
            InsertPhase::Acquiring
            | InsertPhase::EnsuringTable
            | InsertPhase::OpeningIndex
            | InsertPhase::Reserving => InsertEnding::SetUpFailed { fault },
            _ => InsertEnding::StoppedPartway { fault },
        }
    }

    /// What an insert that has ended with `ending` reports. On completion it
    /// is the id of every chunk, in input order. A fault before the first
    /// row is surfaced as it is; from then on the insert has stopped
    /// partway, at the first chunk that is not committed.
    pub open spec fn outcome(self, ending: InsertEnding) -> Result<Seq<i64>, StoreErrorView> {
        match ending {
            InsertEnding::Completed => Ok(self.committed),
            InsertEnding::SetUpFailed { fault } => Err(surfaced(fault)),
            InsertEnding::StoppedPartway { fault } => Err(
                StoreErrorView::PartialBatchFailure {
                    failed_index: self.committed.len(),
                    committed: self.committed,
                    cause: fault,
                },
            ),
        }
    }

    /// What follows when the operation in flight is answered by `event`.
    pub open spec fn step(self, event: InsertEvent) -> InsertProgressView {
        if let InsertPhase::Releasing { ending } = self.phase {
            InsertProgressView::Finished { outcome: self.outcome(ending) }
        } else if self.answered_by(event) {
            let next = self.succeeded(event);
            InsertProgressView::Next { machine: next, action: next.pending() }
        } else if self.phase is Acquiring {
            InsertProgressView::Finished {
                outcome: self.outcome(self.ending_on(Self::fault_of(event))),
            }
        } else {
            let next = self.at(
                InsertPhase::Releasing { ending: self.ending_on(Self::fault_of(event)) },
            );
            InsertProgressView::Next { machine: next, action: next.pending() }
        }
    }

    /// What is left to do when the insert is given up: the release of the
    /// collection, where it is held.
    pub open spec fn abandoned(self) -> Option<InsertActionView> {
        if self.holds_collection() {
            Some(InsertActionView::Release { collection: self.collection })
        } else {
            None
        }
    }
}

/// An insert in progress.
pub struct InsertBatch {
    collection: String,
    config: IndexConfig,
    chunks: Vec<Chunk>,
    committed: Vec<i64>,
    phase: InsertPhase,
}

/// What follows an answered operation.
pub enum InsertProgress {
    /// The insert goes on: `action` is to be performed next, and its outcome
    /// reported to `machine`.
    Next { machine: InsertBatch, action: InsertAction },
    /// The insert is over, and the collection is not held. On success the
    /// outcome holds the id of every chunk, in input order.
    Finished { outcome: Result<Vec<i64>, StoreError> },
}

/// Mathematical value of the outcome of an insert.
pub open spec fn outcome_view(outcome: Result<Vec<i64>, StoreError>) -> Result<
    Seq<i64>,
    StoreErrorView,
> {
    match outcome {
        Ok(ids) => Ok(ids@),
        Err(error) => Err(error@),
    }
}

/// Mathematical value of an optional operation.
pub open spec fn optional_action(action: Option<InsertAction>) -> Option<InsertActionView> {
    match action {
        Some(a) => Some(a@),
        None => None,
    }
}

impl View for InsertBatch {
    type V = InsertBatchView;

    closed spec fn view(&self) -> InsertBatchView {
        InsertBatchView {
            collection: self.collection@,
            config: self.config,
            chunks: views(self.chunks@),
            committed: self.committed@,
            phase: self.phase,
        }
    }
}

impl View for InsertProgress {
    type V = InsertProgressView;

    open spec fn view(&self) -> InsertProgressView {
        match *self {
            InsertProgress::Next { machine, action } => InsertProgressView::Next {
                machine: machine@,
                action: action@,
            },
            InsertProgress::Finished { outcome } => InsertProgressView::Finished {
                outcome: outcome_view(outcome),
            },
        }
    }
}

impl InsertBatch {
    #[verifier::type_invariant]
    spec fn inv(self) -> bool {
        self@.wf()
    }

    /// Starts the insert of `chunks` into `collection`, whose index has the
    /// configuration `config`. Returns the machine and the first operation.
    pub fn begin(collection: String, config: IndexConfig, chunks: Vec<Chunk>) -> (start: (
        InsertBatch,
        InsertAction,
    ))
        ensures
            start.0@ == InsertBatchView::initial(collection@, config, views(chunks@)),
            start.0@.wf(),
            start.1@ == start.0@.pending(),
    {
        let machine = InsertBatch {
            collection,
            config,
            chunks,
            committed: Vec::new(),
            phase: InsertPhase::Acquiring,
        };
        let action = machine.pending();
        (machine, action)
    }

    /// The operation in flight.
    pub fn pending(&self) -> (action: InsertAction)
        ensures
            action@ == self@.pending(),
    {
        proof {
            use_type_invariant(self);
        }
        match self.phase {
            InsertPhase::Acquiring => InsertAction::Acquire { collection: self.collection.clone() },
            InsertPhase::EnsuringTable => InsertAction::EnsureTable {
                statement: create_table_statement(self.collection.as_str()),
            },
            InsertPhase::OpeningIndex => InsertAction::OpenIndex {
                collection: self.collection.clone(),
                file: snapshot_file(self.collection.as_str()),
                config: self.config,
            },
            InsertPhase::Reserving => InsertAction::Reserve { additional: self.chunks.len() },
            InsertPhase::InsertingRow => {
                let position: usize = self.committed.len();
                let chunk = &self.chunks[position];
                InsertAction::InsertRow {
                    chunk: position,
                    statement: insert_row_statement(
                        self.collection.as_str(),
                        chunk.explicit_id.is_some(),
                    ),
                    explicit_id: chunk.explicit_id,
                    text: chunk.text.clone(),
                    metadata: copy_optional_text(&chunk.metadata),
                }
            },
            InsertPhase::CheckingVector { row_id } => InsertAction::CheckVector {
                chunk: self.committed.len(),
                key: index_key(row_id),
            },
            InsertPhase::AddingVector { row_id } => InsertAction::AddVector {
                chunk: self.committed.len(),
                key: index_key(row_id),
            },
            InsertPhase::Saving => InsertAction::SaveIndex {
                file: snapshot_file(self.collection.as_str()),
            },
            InsertPhase::Releasing { .. } => InsertAction::Release {
                collection: self.collection.clone(),
            },
        }
    }

    /// The ids of the chunks that are committed to both stores so far, in
    /// input order.
    pub fn committed(&self) -> (ids: &Vec<i64>)
        ensures
            ids@ == self@.committed,
    {
        &self.committed
    }

    /// Gives the insert up, as when its caller is cancelled. Returns what is
    /// left to do: the release of the collection where the insert holds it,
    /// nothing where it does not. Nothing is rolled back.
    pub fn abandon(self) -> (action: Option<InsertAction>)
        ensures
            optional_action(action) == self@.abandoned(),
    {
        match self.phase {
            InsertPhase::Acquiring => None,
            _ => Some(InsertAction::Release { collection: self.collection }),
        }
    }

    /// Answers the operation in flight with what became of it.
    ///
    /// An event that reports success moves the insert on. Any other event
    /// stops it at once, with nothing rolled back: a failure before the
    /// first row is reported as the fault itself, a later one as a partial
    /// failure that names the first chunk that is not committed and the ids
    /// of those that are. An event that is no answer to the operation in
    /// flight, or a row id other than the explicit one that was asked for,
    /// counts as a storage fault of that operation.
    ///
    /// However the insert stops, a collection that was acquired is released
    /// before the insert is over: the outcome is given in answer to the
    /// release, whatever became of it, and only a collection that could not
    /// be acquired ends the insert without one.
    pub fn step(self, event: InsertEvent) -> (progress: InsertProgress)
        ensures
            progress@ == self@.step(event),
            progress matches InsertProgress::Next { machine, .. } ==> machine@.wf(),
    {
        proof {
            use_type_invariant(&self);
        }
        let answered: bool = match self.phase {
            InsertPhase::InsertingRow => match event {
                InsertEvent::RowInserted { row_id } => {
                    match self.chunks[self.committed.len()].explicit_id {
                        Some(id) => id == row_id,
                        None => true,
                    }
                },
                _ => false,
            },
            _ => match event {
                InsertEvent::Done => true,
                _ => false,
            },
        };
        let fault = match event {
            InsertEvent::Failed { fault } => fault,
            _ => Fault::StorageIO,
        };
        let InsertBatch { collection, config, chunks, mut committed, phase } = self;
        let total: usize = chunks.len();
        let next: InsertPhase = match phase {
            InsertPhase::Releasing { ending } => {
                let outcome = match ending {
                    InsertEnding::Completed => Ok(committed),
                    InsertEnding::SetUpFailed { fault } => Err(StoreError::from_fault(fault)),
                    InsertEnding::StoppedPartway { fault } => Err(
                        StoreError::partial(committed.len(), committed, fault),
                    ),
                };
                return InsertProgress::Finished { outcome };
            },
            InsertPhase::Acquiring => {
                if answered {
                    InsertPhase::EnsuringTable
                } else {
                    return InsertProgress::Finished {
                        outcome: Err(StoreError::from_fault(fault)),
                    };
                }
            },
            InsertPhase::EnsuringTable => {
                if answered {
                    InsertPhase::OpeningIndex
                } else {
                    InsertPhase::Releasing { ending: InsertEnding::SetUpFailed { fault } }
                }
            },
            InsertPhase::OpeningIndex => {
                if answered {
                    InsertPhase::Reserving
                } else {
                    InsertPhase::Releasing { ending: InsertEnding::SetUpFailed { fault } }
                }
            },
            InsertPhase::Reserving => {
                if !answered {
                    InsertPhase::Releasing { ending: InsertEnding::SetUpFailed { fault } }
                } else if total > 0 {
                    InsertPhase::InsertingRow
                } else {
                    InsertPhase::Saving
                }
            },
            InsertPhase::InsertingRow => match event {
                InsertEvent::RowInserted { row_id } if answered => InsertPhase::CheckingVector {
                    row_id,
                },
                _ => InsertPhase::Releasing { ending: InsertEnding::StoppedPartway { fault } },
            },
            InsertPhase::CheckingVector { row_id } => {
                if answered {
                    InsertPhase::AddingVector { row_id }
                } else {
                    InsertPhase::Releasing { ending: InsertEnding::StoppedPartway { fault } }
                }
            },
            InsertPhase::AddingVector { row_id } => {
                if !answered {
                    InsertPhase::Releasing { ending: InsertEnding::StoppedPartway { fault } }
                } else {
                    committed.push(row_id);
                    if committed.len() < total {
                        InsertPhase::InsertingRow
                    } else {
                        InsertPhase::Saving
                    }
                }
            },
            InsertPhase::Saving => {
                if answered {
                    InsertPhase::Releasing { ending: InsertEnding::Completed }
                } else {
                    InsertPhase::Releasing { ending: InsertEnding::StoppedPartway { fault } }
                }
            },
        };
        let machine = InsertBatch { collection, config, chunks, committed, phase: next };
        let action = machine.pending();
        InsertProgress::Next { machine, action }
    }
}

impl InsertBatchView {
    /// What follows when the operation in flight and those after it are
    /// answered by `events`, in order. Events after the end of the insert are
    /// not looked at.
    pub open spec fn run(self, events: Seq<InsertEvent>) -> InsertProgressView
        decreases events.len(),
    {
        if events.len() == 0 {
            InsertProgressView::Next { machine: self, action: self.pending() }
        } else {
            match self.step(events[0]) {
                InsertProgressView::Next { machine, .. } => machine.run(events.drop_first()),
                InsertProgressView::Finished { outcome } => InsertProgressView::Finished {
                    outcome,
                },
            }
        }
    }

    /// The state in which the chunks before position `ids.len()` are
    /// committed under `ids` and the next operation is in flight.
    pub open spec fn with_committed(self, ids: Seq<i64>) -> InsertBatchView {
        InsertBatchView { committed: ids, ..self }.advanced()
    }
}

/// The events of a table and an index that take every chunk: for each id, in
/// order, the insertion of its row, and then the check and the addition of
/// its vector.
pub open spec fn commit_events(ids: Seq<i64>) -> Seq<InsertEvent>
    decreases ids.len(),
{
    if ids.len() == 0 {
        Seq::empty()
    } else {
        commit_events(ids.drop_last()).push(InsertEvent::RowInserted { row_id: ids.last() }).push(
            InsertEvent::Done,
        ).push(InsertEvent::Done)
    }
}

/// The events in which the collection is acquired, the set-up succeeds, and
/// the first `ids.len()` chunks are taken under `ids`.
pub open spec fn events_through(ids: Seq<i64>) -> Seq<InsertEvent> {
    seq![InsertEvent::Done, InsertEvent::Done, InsertEvent::Done, InsertEvent::Done]
        + commit_events(ids)
}

/// Whether the table may return `ids` for the first chunks of `chunks`: as
/// many ids as chunks at most, and the explicit id wherever one was given.
pub open spec fn ids_fit(chunks: Seq<ChunkView>, ids: Seq<i64>) -> bool {
    &&& ids.len() <= chunks.len()
    &&& forall|i: int|
        0 <= i < ids.len() ==> (#[trigger] chunks[i].explicit_id is Some ==> chunks[i].explicit_id
            == Some(ids[i]))
}

/// A well-formed state stays well-formed, and an insert never changes its
/// collection, its configuration or its chunks, and never takes back a
/// committed id.
pub proof fn lemma_step_preserves(s: InsertBatchView, event: InsertEvent)
    requires
        s.wf(),
    ensures
        s.step(event) matches InsertProgressView::Next { machine, action } ==> {
            &&& machine.wf()
            &&& action == machine.pending()
            &&& machine.collection == s.collection
            &&& machine.config == s.config
            &&& machine.chunks == s.chunks
            &&& s.committed.is_prefix_of(machine.committed)
        },
{
}

/// The collection is held throughout, and let go at the end: the first
/// operation of an insert is the acquisition; nothing else is asked for
/// before it is granted; once it is granted every way the insert can go
/// leads through a release, in answer to which, and to nothing else, the
/// insert ends; and an insert that could not acquire the collection ends
/// without touching it.
pub proof fn lemma_release_on_every_path(s: InsertBatchView, event: InsertEvent)
    requires
        s.wf(),
    ensures
        InsertBatchView::initial(s.collection, s.config, s.chunks).pending() == (
        InsertActionView::Acquire { collection: s.collection }),
        s.pending() is Acquire <==> !s.holds_collection(),
        s.step(event) matches InsertProgressView::Next { machine, .. } ==> machine.holds_collection(),
        s.step(event) is Finished <==> s.pending() is Release || (s.pending() is Acquire && !(event
            is Done)),
        s.holds_collection() ==> s.abandoned() == Some(
            InsertActionView::Release { collection: s.collection },
        ),
        !s.holds_collection() ==> s.abandoned() is None,
{
}

/// The row comes first, and the vector goes under the row's id: a vector is
/// only ever checked in answer to the insertion of the row of the same
/// chunk, and under the key that stands for the id which the table
/// returned; and it is only ever added in answer to a check that let it
/// pass, under the same key.
pub proof fn lemma_vector_follows_row(s: InsertBatchView, event: InsertEvent)
    requires
        s.wf(),
    ensures
        s.step(event) matches InsertProgressView::Next {
            action: InsertActionView::CheckVector { chunk, key },
            ..
        } ==> {
            &&& s.pending() matches InsertActionView::InsertRow { chunk: row_chunk, .. }
            &&& row_chunk == chunk
            &&& event matches InsertEvent::RowInserted { row_id }
            &&& key == key_of(row_id as int)
            &&& id_of(key) == row_id
            &&& 0 <= key <= u64::MAX
        },
        s.step(event) matches InsertProgressView::Next {
            action: InsertActionView::AddVector { chunk, key },
            ..
        } ==> {
            &&& s.pending() == (InsertActionView::CheckVector { chunk, key })
            &&& event is Done
        },
{
    if let InsertEvent::RowInserted { row_id } = event {
        lemma_id_round_trip(row_id as int);
    }
}

/// A vector that is refused is never added: where the check of a vector
/// fails, as it does for one whose length is not the established number of
/// dimensions, the next operation is the release, and the insert reports
/// the position of the chunk, the ids committed before it, and the fault.
pub proof fn lemma_refused_vector_is_not_added(
    s: InsertBatchView,
    fault: Fault,
    released: InsertEvent,
)
    requires
        s.wf(),
        s.pending() is CheckVector,
    ensures
        ({
            let releasing = s.at(
                InsertPhase::Releasing { ending: InsertEnding::StoppedPartway { fault } },
            );
            &&& s.step(InsertEvent::Failed { fault }) == (InsertProgressView::Next {
                machine: releasing,
                action: InsertActionView::Release { collection: s.collection },
            })
            &&& releasing.step(released) == (InsertProgressView::Finished {
                outcome: Err(
                    StoreErrorView::PartialBatchFailure {
                        failed_index: s.committed.len(),
                        committed: s.committed,
                        cause: fault,
                    },
                ),
            })
        }),
{
}

/// The index is saved once, when every chunk is committed: a save is only
/// asked for in a state whose committed ids are as many as the chunks, and
/// only after its success does an insert report success, with those ids.
pub proof fn lemma_save_is_last(s: InsertBatchView, event: InsertEvent)
    requires
        s.wf(),
    ensures
        s.pending() is SaveIndex ==> s.committed.len() == s.chunks.len(),
        s.step(event) matches InsertProgressView::Next { machine, .. } ==> (machine.phase == (
        InsertPhase::Releasing { ending: InsertEnding::Completed }) ==> {
            &&& s.pending() is SaveIndex
            &&& event is Done
            &&& machine.committed == s.committed
        }),
        s.step(event) matches InsertProgressView::Finished { outcome: Ok(ids) } ==> {
            &&& s.phase == (InsertPhase::Releasing { ending: InsertEnding::Completed })
            &&& ids == s.committed
            &&& ids.len() == s.chunks.len()
        },
{
}

/// A failure stops the insert at once and rolls nothing back. One that
/// happens before rows are inserted is reported as it is; a later one is
/// reported as a partial failure that names the position of the first chunk
/// that is not committed and the ids of all that are.
pub proof fn lemma_failure_reports_prefix(s: InsertBatchView, fault: Fault, answer: InsertEvent)
    requires
        s.wf(),
        s.holds_collection(),
        !(s.phase is Releasing),
    ensures
        ({
            let releasing = s.at(InsertPhase::Releasing { ending: s.ending_on(fault) });
            let reported = s.outcome(s.ending_on(fault));
            &&& s.step(InsertEvent::Failed { fault }) == (InsertProgressView::Next {
                machine: releasing,
                action: InsertActionView::Release { collection: s.collection },
            })
            &&& releasing.step(answer) == (InsertProgressView::Finished { outcome: reported })
            &&& s.committed.len() <= s.chunks.len()
            &&& (s.pending() is EnsureTable || s.pending() is OpenIndex || s.pending() is Reserve)
                ==> reported == Err::<Seq<i64>, StoreErrorView>(surfaced(fault))
            &&& (s.pending() is InsertRow || s.pending() is CheckVector || s.pending() is AddVector
                || s.pending() is SaveIndex) ==> reported == Err::<Seq<i64>, StoreErrorView>(
                StoreErrorView::PartialBatchFailure {
                    failed_index: s.committed.len(),
                    committed: s.committed,
                    cause: fault,
                },
            )
        }),
{
}

/// Running through two sequences of events one after the other is running
/// through their concatenation.
pub proof fn lemma_run_concat(s: InsertBatchView, first: Seq<InsertEvent>, rest: Seq<InsertEvent>)
    ensures
        s.run(first + rest) == match s.run(first) {
            InsertProgressView::Next { machine, .. } => machine.run(rest),
            InsertProgressView::Finished { outcome } => InsertProgressView::Finished { outcome },
        },
    decreases first.len(),
{
    if first.len() == 0 {
        assert(first + rest =~= rest);
    } else {
        assert((first + rest)[0] == first[0]);
        assert((first + rest).drop_first() =~= first.drop_first() + rest);
        match s.step(first[0]) {
            InsertProgressView::Next { machine, .. } => {
                lemma_run_concat(machine, first.drop_first(), rest);
            },
            InsertProgressView::Finished { .. } => {},
        }
    }
}

/// Running through one event is taking one step.
proof fn lemma_run_one(s: InsertBatchView, event: InsertEvent)
    ensures
        s.run(seq![event]) == match s.step(event) {
            InsertProgressView::Next { machine, .. } => InsertProgressView::Next {
                machine,
                action: machine.pending(),
            },
            InsertProgressView::Finished { outcome } => InsertProgressView::Finished { outcome },
        },
{
    let events = seq![event];
    let none = Seq::<InsertEvent>::empty();
    assert(events.drop_first() =~= none);
    assert(events[0] == event);
    match s.step(event) {
        InsertProgressView::Next { machine, .. } => {
            assert(machine.run(none) == (InsertProgressView::Next {
                machine,
                action: machine.pending(),
            }));
            assert(s.run(events) == machine.run(events.drop_first()));
        },
        InsertProgressView::Finished { outcome } => {
            assert(s.run(events) == (InsertProgressView::Finished { outcome }));
        },
    }
}

/// Running through two events is taking two steps.
proof fn lemma_run_two(s: InsertBatchView, first: InsertEvent, second: InsertEvent)
    ensures
        s.run(seq![first, second]) == match s.step(first) {
            InsertProgressView::Next { machine, .. } => machine.run(seq![second]),
            InsertProgressView::Finished { outcome } => InsertProgressView::Finished { outcome },
        },
{
    let events = seq![first, second];
    assert(events.drop_first() =~= seq![second]);
    assert(events[0] == first);
}

/// While the stores succeed, the chunks are committed in input order under
/// the ids that the table returns: after the acquisition, the set-up and the
/// first `ids.len()` chunks, exactly `ids` are committed, and the next
/// operation is the row of the next chunk, or the save where none is left.
pub proof fn lemma_run_commits_in_order(
    collection: Seq<char>,
    config: IndexConfig,
    chunks: Seq<ChunkView>,
    ids: Seq<i64>,
)
    requires
        ids_fit(chunks, ids),
    ensures
        ({
            let start = InsertBatchView::initial(collection, config, chunks);
            let reached = start.with_committed(ids);
            &&& reached.wf()
            &&& reached.holds_collection()
            &&& !(reached.phase is Releasing)
            &&& start.run(events_through(ids)) == (InsertProgressView::Next {
                machine: reached,
                action: reached.pending(),
            })
        }),
    decreases ids.len(),
{
    let start = InsertBatchView::initial(collection, config, chunks);
    let done = InsertEvent::Done;
    if ids.len() == 0 {
        let ensuring = start.at(InsertPhase::EnsuringTable);
        let opening = start.at(InsertPhase::OpeningIndex);
        let reserving = start.at(InsertPhase::Reserving);
        assert(events_through(ids) =~= seq![done, done] + seq![done, done]);
        lemma_run_concat(start, seq![done, done], seq![done, done]);
        lemma_run_two(start, done, done);
        lemma_run_one(ensuring, done);
        lemma_run_two(opening, done, done);
        lemma_run_one(reserving, done);
        assert(ids =~= start.committed);
        assert(start.with_committed(ids) == reserving.advanced());
    } else {
        let before = ids.drop_last();
        let row_id = ids.last();
        let position = before.len() as int;
        assert(ids_fit(chunks, before)) by {
            assert forall|i: int|
                0 <= i < before.len() && #[trigger] chunks[i].explicit_id is Some implies chunks[i].explicit_id
                == Some(before[i]) by {
                assert(before[i] == ids[i]);
            }
        }
        lemma_run_commits_in_order(collection, config, chunks, before);
        let at_row = start.with_committed(before);
        assert(at_row.phase is InsertingRow);
        let row = InsertEvent::RowInserted { row_id };
        let tail = seq![row] + seq![done, done];
        assert(events_through(ids) =~= events_through(before) + tail);
        lemma_run_concat(start, events_through(before), tail);
        assert(chunks[position].explicit_id is Some ==> chunks[position].explicit_id == Some(
            ids[position],
        ));
        assert(at_row.answered_by(row));
        let at_check = at_row.at(InsertPhase::CheckingVector { row_id });
        let at_vector = at_row.at(InsertPhase::AddingVector { row_id });
        lemma_run_concat(at_row, seq![row], seq![done, done]);
        lemma_run_one(at_row, row);
        lemma_run_two(at_check, done, done);
        lemma_run_one(at_vector, done);
        assert(before.push(row_id) =~= ids);
    }
}

/// An insert whose every operation succeeds returns the id of every chunk,
/// in input order, once the collection is released.
pub proof fn lemma_success_returns_ids(
    collection: Seq<char>,
    config: IndexConfig,
    chunks: Seq<ChunkView>,
    ids: Seq<i64>,
    released: InsertEvent,
)
    requires
        ids_fit(chunks, ids),
        ids.len() == chunks.len(),
    ensures
        InsertBatchView::initial(collection, config, chunks).run(
            events_through(ids).push(InsertEvent::Done).push(released),
        ) == (InsertProgressView::Finished { outcome: Ok(ids) }),
{
    let start = InsertBatchView::initial(collection, config, chunks);
    let done = InsertEvent::Done;
    lemma_run_commits_in_order(collection, config, chunks, ids);
    lemma_run_concat(start, events_through(ids), seq![done, released]);
    assert(events_through(ids).push(done).push(released) =~= events_through(ids) + seq![
        done,
        released,
    ]);
    let saving = start.with_committed(ids);
    assert(saving.phase is Saving);
    lemma_run_two(saving, done, released);
    lemma_run_one(
        saving.at(InsertPhase::Releasing { ending: InsertEnding::Completed }),
        released,
    );
}

/// An insert that fails at the row, at the check or at the vector of the
/// chunk at position `ids.len()`, after the chunks before it were committed
/// under `ids`, releases the collection and reports that position, exactly
/// those ids, and the fault.
pub proof fn lemma_failure_at_chunk(
    collection: Seq<char>,
    config: IndexConfig,
    chunks: Seq<ChunkView>,
    ids: Seq<i64>,
    row_id: i64,
    fault: Fault,
    released: InsertEvent,
)
    requires
        ids_fit(chunks, ids),
        ids.len() < chunks.len(),
        chunks[ids.len() as int].explicit_id is Some ==> chunks[ids.len() as int].explicit_id
            == Some(row_id),
    ensures
        ({
            let start = InsertBatchView::initial(collection, config, chunks);
            let failed = InsertEvent::Failed { fault };
            let row = InsertEvent::RowInserted { row_id };
            let reported = InsertProgressView::Finished {
                outcome: Err(
                    StoreErrorView::PartialBatchFailure {
                        failed_index: ids.len(),
                        committed: ids,
                        cause: fault,
                    },
                ),
            };
            &&& start.run(events_through(ids) + seq![failed, released]) == reported
            &&& start.run(events_through(ids) + seq![row, failed, released]) == reported
            &&& start.run(events_through(ids) + seq![row, InsertEvent::Done, failed, released])
                == reported
        }),
{
    let start = InsertBatchView::initial(collection, config, chunks);
    let done = InsertEvent::Done;
    let failed = InsertEvent::Failed { fault };
    let row = InsertEvent::RowInserted { row_id };
    let ending = InsertEnding::StoppedPartway { fault };
    lemma_run_commits_in_order(collection, config, chunks, ids);
    let at_row = start.with_committed(ids);
    assert(at_row.phase is InsertingRow);
    assert(at_row.answered_by(row));
    let at_check = at_row.at(InsertPhase::CheckingVector { row_id });
    let at_vector = at_row.at(InsertPhase::AddingVector { row_id });

    lemma_run_concat(start, events_through(ids), seq![failed, released]);
    lemma_run_two(at_row, failed, released);
    lemma_run_one(at_row.at(InsertPhase::Releasing { ending }), released);

    assert(seq![row, failed, released] =~= seq![row] + seq![failed, released]);
    lemma_run_concat(start, events_through(ids), seq![row, failed, released]);
    lemma_run_concat(at_row, seq![row], seq![failed, released]);
    lemma_run_one(at_row, row);
    lemma_run_two(at_check, failed, released);
    lemma_run_one(at_check.at(InsertPhase::Releasing { ending }), released);

    assert(seq![row, done, failed, released] =~= seq![row, done] + seq![failed, released]);
    lemma_run_concat(start, events_through(ids), seq![row, done, failed, released]);
    lemma_run_concat(at_row, seq![row, done], seq![failed, released]);
    lemma_run_two(at_row, row, done);
    lemma_run_one(at_check, done);
    lemma_run_two(at_vector, failed, released);
    lemma_run_one(at_vector.at(InsertPhase::Releasing { ending }), released);
}

} // verus!
