//! The coordinator of a drop.
//!
//! Dropping a collection is a fixed sequence of operations:
//!
//! 1. the collection is acquired, for this drop alone, against searches
//!    too,
//! 2. the index is closed where it is open, without being saved,
//! 3. the table is removed,
//! 4. the snapshot file is removed where it exists,
//! 5. the collection is released.
//!
//! The table goes before the snapshot file. Should the drop be cut short
//! between the two, what is left is a snapshot file without a table, which a
//! later drop cleans up; in the other order it would be rows without an
//! index, which would go on being served as if the data were still there.
//! The open index goes before both, so that no vector stays in memory once
//! its row is gone.
//!
//! All three are no-ops on what is not there, so dropping a collection that
//! was dropped before, or never created, succeeds.
use crate::error::{surfaced, Fault, StoreError, StoreErrorView};
use crate::naming::{snapshot_file, snapshot_file_of};
use crate::sql::{drop_table_of, drop_table_statement};
use vstd::prelude::*;

verus! {

/// The operation of a drop that is in flight.
#[derive(Debug, Clone, Copy, PartialEq, Eq, Structural)]
pub enum DropPhase {
    Acquiring,
    ClosingIndex,
    DroppingTable,
    ProbingSnapshot,
    RemovingSnapshot,
    /// The release of the collection, after which the drop is over: with
    /// success where nothing failed, with the fault where something did.
    Releasing { failure: Option<Fault> },
}

/// An operation for the caller to perform.
#[derive(Debug, PartialEq, Eq)]
pub enum DropAction {
    /// Hold `collection` for this drop alone, against searches too: wait
    /// until [`crate::locks::LockTable::try_write`] grants it.
    Acquire { collection: String },
    /// Close the index of `collection` if it is open, and do not save it, as
    /// [`crate::registry::Registry::evict`] does.
    CloseIndex { collection: String },
    /// Run `statement`, which removes the table if it exists.
    DropTable { statement: String },
    /// Tell whether the snapshot `file` exists.
    ProbeSnapshot { file: String },
    /// Delete the snapshot `file`.
    RemoveSnapshot { file: String },
    /// Let go of `collection`, as [`crate::locks::LockTable::release_write`] does.
    Release { collection: String },
}

/// Mathematical value of a [`DropAction`].
pub enum DropActionView {
    Acquire { collection: Seq<char> },
    CloseIndex { collection: Seq<char> },
    DropTable { statement: Seq<char> },
    ProbeSnapshot { file: Seq<char> },
    RemoveSnapshot { file: Seq<char> },
    Release { collection: Seq<char> },
}

impl View for DropAction {
    type V = DropActionView;

    open spec fn view(&self) -> DropActionView {
        match *self {
            DropAction::Acquire { collection } => DropActionView::Acquire {
                collection: collection@,
            },
            DropAction::CloseIndex { collection } => DropActionView::CloseIndex {
                collection: collection@,
            },
            DropAction::DropTable { statement } => DropActionView::DropTable {
                statement: statement@,
            },
            DropAction::ProbeSnapshot { file } => DropActionView::ProbeSnapshot { file: file@ },
            DropAction::RemoveSnapshot { file } => DropActionView::RemoveSnapshot { file: file@ },
            DropAction::Release { collection } => DropActionView::Release {
                collection: collection@,
            },
        }
    }
}

/// What became of the operation in flight.
#[derive(Debug, Clone, Copy, PartialEq, Eq, Structural)]
pub enum DropEvent {
    /// It succeeded; the file that was looked for exists.
    Done,
    /// The file that was looked for does not exist.
    Absent,
    /// It failed.
    Failed { fault: Fault },
}

/// Mathematical value of a [`DropCollection`].
pub struct DropCollectionView {
    pub collection: Seq<char>,
    pub phase: DropPhase,
}

/// Mathematical value of a [`DropProgress`].
pub enum DropProgressView {
    Next { machine: DropCollectionView, action: DropActionView },
    Finished { outcome: Result<(), StoreErrorView> },
}

impl DropCollectionView {
    /// The state in which a drop starts.
    pub open spec fn initial(collection: Seq<char>) -> DropCollectionView {
        DropCollectionView { collection, phase: DropPhase::Acquiring }
    }

    /// The operation in flight.
    pub open spec fn pending(self) -> DropActionView {
        match self.phase {
            DropPhase::Acquiring => DropActionView::Acquire { collection: self.collection },
            DropPhase::ClosingIndex => DropActionView::CloseIndex { collection: self.collection },
            DropPhase::DroppingTable => DropActionView::DropTable {
                statement: drop_table_of(self.collection),
            },
            DropPhase::ProbingSnapshot => DropActionView::ProbeSnapshot {
                file: snapshot_file_of(self.collection),
            },
            DropPhase::RemovingSnapshot => DropActionView::RemoveSnapshot {
                file: snapshot_file_of(self.collection),
            },
            DropPhase::Releasing { .. } => DropActionView::Release { collection: self.collection },
        }
    }

    /// Whether the drop holds the collection.
    pub open spec fn holds_collection(self) -> bool {
        !(self.phase is Acquiring)
    }

    /// The state with the given phase.
    pub open spec fn at(self, phase: DropPhase) -> DropCollectionView {
        DropCollectionView { phase, ..self }
    }

    /// Where the drop stands while it goes on in state `self`.
    pub open spec fn going(self) -> DropProgressView {
        DropProgressView::Next { machine: self, action: self.pending() }
    }

    /// What a drop reports once the collection is released.
    pub open spec fn outcome(failure: Option<Fault>) -> Result<(), StoreErrorView> {
        match failure {
            None => Ok(()),
            Some(fault) => Err(surfaced(fault)),
        }
    }

    /// The fault that `event` reports where it does not report success: the
    /// fault it names, and a storage fault where it is no answer to the
    /// operation in flight.
    pub open spec fn fault_of(event: DropEvent) -> Fault {
        match event {
            DropEvent::Failed { fault } => fault,
            _ => Fault::StorageIO,
        }
    }

    /// What follows when the operation in flight is answered by `event`.
    pub open spec fn step(self, event: DropEvent) -> DropProgressView {
        match (self.phase, event) {
            (DropPhase::Releasing { failure }, _) => DropProgressView::Finished {
                outcome: Self::outcome(failure),
            },
            (DropPhase::Acquiring, DropEvent::Done) => self.at(DropPhase::ClosingIndex).going(),
            (DropPhase::Acquiring, _) => DropProgressView::Finished {
                outcome: Err(surfaced(Self::fault_of(event))),
            },
            (DropPhase::ClosingIndex, DropEvent::Done) => self.at(DropPhase::DroppingTable).going(),
            (DropPhase::DroppingTable, DropEvent::Done) => self.at(
                DropPhase::ProbingSnapshot,
            ).going(),
            (DropPhase::ProbingSnapshot, DropEvent::Done) => self.at(
                DropPhase::RemovingSnapshot,
            ).going(),
            (DropPhase::ProbingSnapshot, DropEvent::Absent) | (
                DropPhase::RemovingSnapshot,
                DropEvent::Done,
            ) => self.at(DropPhase::Releasing { failure: None }).going(),
            (_, _) => self.at(
                DropPhase::Releasing { failure: Some(Self::fault_of(event)) },
            ).going(),
        }
    }

    /// What is left to do when the drop is given up: the release of the
    /// collection, where it is held.
    pub open spec fn abandoned(self) -> Option<DropActionView> {
        if self.holds_collection() {
            Some(DropActionView::Release { collection: self.collection })
        } else {
            None
        }
    }

    /// What follows when the operation in flight and those after it are
    /// answered by `events`, in order. Events after the end of the drop are
    /// not looked at.
    pub open spec fn run(self, events: Seq<DropEvent>) -> DropProgressView
        decreases events.len(),
    {
        if events.len() == 0 {
            self.going()
        } else {
            match self.step(events[0]) {
                DropProgressView::Next { machine, .. } => machine.run(events.drop_first()),
                DropProgressView::Finished { outcome } => DropProgressView::Finished { outcome },
            }
        }
    }
}

/// A drop in progress.
pub struct DropCollection {
    collection: String,
    phase: DropPhase,
}

/// What follows an answered operation.
pub enum DropProgress {
    /// The drop goes on: `action` is to be performed next, and its outcome
    /// reported to `machine`.
    Next { machine: DropCollection, action: DropAction },
    /// The drop is over, and the collection is not held.
    Finished { outcome: Result<(), StoreError> },
}

/// Mathematical value of the outcome of a drop.
pub open spec fn outcome_view(outcome: Result<(), StoreError>) -> Result<(), StoreErrorView> {
    match outcome {
        Ok(()) => Ok(()),
        Err(error) => Err(error@),
    }
}

/// Mathematical value of an optional operation.
pub open spec fn optional_action(action: Option<DropAction>) -> Option<DropActionView> {
    match action {
        Some(a) => Some(a@),
        None => None,
    }
}

impl View for DropCollection {
    type V = DropCollectionView;

    closed spec fn view(&self) -> DropCollectionView {
        DropCollectionView { collection: self.collection@, phase: self.phase }
    }
}

impl View for DropProgress {
    type V = DropProgressView;

    open spec fn view(&self) -> DropProgressView {
        match *self {
            DropProgress::Next { machine, action } => DropProgressView::Next {
                machine: machine@,
                action: action@,
            },
            DropProgress::Finished { outcome } => DropProgressView::Finished {
                outcome: outcome_view(outcome),
            },
        }
    }
}

impl DropCollection {
    /// Starts the drop of `collection`. Returns the machine and the first
    /// operation.
    pub fn begin(collection: String) -> (start: (DropCollection, DropAction))
        ensures
            start.0@ == DropCollectionView::initial(collection@),
            start.1@ == start.0@.pending(),
    {
        let machine = DropCollection { collection, phase: DropPhase::Acquiring };
        let action = machine.pending();
        (machine, action)
    }

    /// The operation in flight.
    pub fn pending(&self) -> (action: DropAction)
        ensures
            action@ == self@.pending(),
    {
        match self.phase {
            DropPhase::Acquiring => DropAction::Acquire { collection: self.collection.clone() },
            DropPhase::ClosingIndex => DropAction::CloseIndex {
                collection: self.collection.clone(),
            },
            DropPhase::DroppingTable => DropAction::DropTable {
                statement: drop_table_statement(self.collection.as_str()),
            },
            DropPhase::ProbingSnapshot => DropAction::ProbeSnapshot {
                file: snapshot_file(self.collection.as_str()),
            },
            DropPhase::RemovingSnapshot => DropAction::RemoveSnapshot {
                file: snapshot_file(self.collection.as_str()),
            },
            DropPhase::Releasing { .. } => DropAction::Release {
                collection: self.collection.clone(),
            },
        }
    }

    /// Gives the drop up, as when its caller is cancelled. Returns what is
    /// left to do: the release of the collection where the drop holds it,
    /// nothing where it does not.
    pub fn abandon(self) -> (action: Option<DropAction>)
        ensures
            optional_action(action) == self@.abandoned(),
    {
        match self.phase {
            DropPhase::Acquiring => None,
            _ => Some(DropAction::Release { collection: self.collection }),
        }
    }

    /// Goes on at `phase`.
    fn proceed(self, phase: DropPhase) -> (progress: DropProgress)
        ensures
            progress@ == self@.at(phase).going(),
    {
        let machine = DropCollection { collection: self.collection, phase };
        let action = machine.pending();
        DropProgress::Next { machine, action }
    }

    /// Answers the operation in flight with what became of it.
    ///
    /// The table is asked for only once the index is closed, the snapshot
    /// file only once the table is gone, and it is deleted only where it is
    /// found to exist. A failure stops the drop with that fault, and what is
    /// not removed yet stays; an event that is no answer to the operation in
    /// flight counts as a storage fault. However the drop stops, a
    /// collection that was acquired is released before the drop is over: the
    /// outcome is given in answer to the release, whatever became of it,
    /// and only a collection that could not be acquired ends the drop
    /// without one.
    pub fn step(self, event: DropEvent) -> (progress: DropProgress)
        ensures
            progress@ == self@.step(event),
    {
        let fault = match event {
            DropEvent::Failed { fault } => fault,
            _ => Fault::StorageIO,
        };
        match (self.phase, event) {
            (DropPhase::Releasing { failure }, _) => {
                let outcome = match failure {
                    None => Ok(()),
                    Some(fault) => Err(StoreError::from_fault(fault)),
                };
                DropProgress::Finished { outcome }
            },
            (DropPhase::Acquiring, DropEvent::Done) => self.proceed(DropPhase::ClosingIndex),
            (DropPhase::Acquiring, _) => DropProgress::Finished {
                outcome: Err(StoreError::from_fault(fault)),
            },
            (DropPhase::ClosingIndex, DropEvent::Done) => self.proceed(DropPhase::DroppingTable),
            (DropPhase::DroppingTable, DropEvent::Done) => self.proceed(
                DropPhase::ProbingSnapshot,
            ),
            (DropPhase::ProbingSnapshot, DropEvent::Done) => self.proceed(
                DropPhase::RemovingSnapshot,
            ),
            (DropPhase::ProbingSnapshot, DropEvent::Absent) | (
                DropPhase::RemovingSnapshot,
                DropEvent::Done,
            ) => self.proceed(DropPhase::Releasing { failure: None }),
            (_, _) => self.proceed(DropPhase::Releasing { failure: Some(fault) }),
        }
    }
}

/// The collection is held throughout, and let go at the end: the first
/// operation of a drop is the acquisition; nothing else is asked for before
/// it is granted; once it is granted every way the drop can go leads through
/// a release, in answer to which, and to nothing else, the drop ends; and a
/// drop that could not acquire the collection ends without touching it.
pub proof fn lemma_release_on_every_path(s: DropCollectionView, event: DropEvent)
    ensures
        DropCollectionView::initial(s.collection).pending() == (DropActionView::Acquire {
            collection: s.collection,
        }),
        s.pending() is Acquire <==> !s.holds_collection(),
        s.step(event) matches DropProgressView::Next { machine, .. } ==> machine.holds_collection()
            && machine.collection == s.collection,
        s.step(event) is Finished <==> s.pending() is Release || (s.pending() is Acquire && !(event
            is Done)),
        s.holds_collection() ==> s.abandoned() == Some(
            DropActionView::Release { collection: s.collection },
        ),
        !s.holds_collection() ==> s.abandoned() is None,
{
}

/// The open index goes first, the table second, the snapshot file last:
/// the table is removed only in answer to the closing of the index, the
/// snapshot file is looked for only in answer to the successful removal of
/// the table and deleted only where it is found, and the drop succeeds only
/// once the snapshot file is deleted or found not to exist.
pub proof fn lemma_removal_order(s: DropCollectionView, event: DropEvent)
    ensures
        s.step(event) matches DropProgressView::Next { action, .. } ==> {
            &&& action is CloseIndex ==> s.pending() is Acquire && event is Done
            &&& action is DropTable ==> s.pending() is CloseIndex && event is Done
            &&& action is ProbeSnapshot ==> s.pending() is DropTable && event is Done
            &&& action is RemoveSnapshot ==> s.pending() is ProbeSnapshot && event is Done
                && action == (DropActionView::RemoveSnapshot {
                file: snapshot_file_of(s.collection),
            })
        },
        s.step(event) matches DropProgressView::Next { machine, .. } ==> (machine.phase == (
        DropPhase::Releasing { failure: None }) ==> (s.pending() is RemoveSnapshot && event is Done)
            || (s.pending() is ProbeSnapshot && event is Absent)),
        s.step(event) matches DropProgressView::Finished { outcome: Ok(_) } ==> s.phase == (
        DropPhase::Releasing { failure: None }),
{
}

/// A failure stops the drop: whatever fails once the collection is held, the
/// next operation is the release, and in answer to it the drop ends with the
/// fault.
pub proof fn lemma_failure_is_surfaced(s: DropCollectionView, fault: Fault, released: DropEvent)
    requires
        s.holds_collection(),
        !(s.phase is Releasing),
    ensures
        ({
            let releasing = s.at(DropPhase::Releasing { failure: Some(fault) });
            &&& s.step(DropEvent::Failed { fault }) == releasing.going()
            &&& releasing.pending() is Release
            &&& releasing.step(released) == (DropProgressView::Finished {
                outcome: Err(surfaced(fault)),
            })
        }),
{
}

/// Running through one event is taking one step.
proof fn lemma_run_one(s: DropCollectionView, event: DropEvent)
    ensures
        s.run(seq![event]) == match s.step(event) {
            DropProgressView::Next { machine, .. } => machine.going(),
            DropProgressView::Finished { outcome } => DropProgressView::Finished { outcome },
        },
{
    let events = seq![event];
    let none = Seq::<DropEvent>::empty();
    assert(events.drop_first() =~= none);
    assert(events[0] == event);
    match s.step(event) {
        DropProgressView::Next { machine, .. } => {
            assert(machine.run(none) == machine.going());
            assert(s.run(events) == machine.run(events.drop_first()));
        },
        DropProgressView::Finished { outcome } => {
            assert(s.run(events) == (DropProgressView::Finished { outcome }));
        },
    }
}

/// Running through a first event and then the rest is taking one step and
/// running through the rest.
pub proof fn lemma_run_first(s: DropCollectionView, first: DropEvent, rest: Seq<DropEvent>)
    ensures
        s.run(seq![first] + rest) == match s.step(first) {
            DropProgressView::Next { machine, .. } => machine.run(rest),
            DropProgressView::Finished { outcome } => DropProgressView::Finished { outcome },
        },
{
    let events = seq![first] + rest;
    assert(events[0] == first);
    assert(events.drop_first() =~= rest);
}

/// The events in which the collection is acquired, the index is closed, the
/// table is removed, the snapshot file is found to exist and deleted, or
/// found not to exist, as `exists` says, and the release is answered by
/// `released`.
pub open spec fn success_events(exists: bool, released: DropEvent) -> Seq<DropEvent> {
    let done = DropEvent::Done;
    if exists {
        seq![done, done, done, done, done, released]
    } else {
        seq![done, done, done, DropEvent::Absent, released]
    }
}

/// A drop whose operations succeed succeeds, whatever was there before.
pub proof fn lemma_drop_succeeds(collection: Seq<char>, exists: bool, released: DropEvent)
    ensures
        DropCollectionView::initial(collection).run(success_events(exists, released)) == (
        DropProgressView::Finished { outcome: Ok(()) }),
{
    let start = DropCollectionView::initial(collection);
    let done = DropEvent::Done;
    let absent = DropEvent::Absent;
    let closing = start.at(DropPhase::ClosingIndex);
    let dropping = start.at(DropPhase::DroppingTable);
    let probing = start.at(DropPhase::ProbingSnapshot);
    let removing = start.at(DropPhase::RemovingSnapshot);
    let releasing = start.at(DropPhase::Releasing { failure: None });
    lemma_run_one(releasing, released);
    if exists {
        assert(success_events(exists, released) =~= seq![done] + seq![
            done,
            done,
            done,
            done,
            released,
        ]);
        assert(seq![done, done, done, done, released] =~= seq![done] + seq![
            done,
            done,
            done,
            released,
        ]);
        assert(seq![done, done, done, released] =~= seq![done] + seq![done, done, released]);
        assert(seq![done, done, released] =~= seq![done] + seq![done, released]);
        assert(seq![done, released] =~= seq![done] + seq![released]);
        lemma_run_first(start, done, seq![done, done, done, done, released]);
        lemma_run_first(closing, done, seq![done, done, done, released]);
        lemma_run_first(dropping, done, seq![done, done, released]);
        lemma_run_first(probing, done, seq![done, released]);
        lemma_run_first(removing, done, seq![released]);
    } else {
        assert(success_events(exists, released) =~= seq![done] + seq![
            done,
            done,
            absent,
            released,
        ]);
        assert(seq![done, done, absent, released] =~= seq![done] + seq![done, absent, released]);
        assert(seq![done, absent, released] =~= seq![done] + seq![absent, released]);
        assert(seq![absent, released] =~= seq![absent] + seq![released]);
        lemma_run_first(start, done, seq![done, done, absent, released]);
        lemma_run_first(closing, done, seq![done, absent, released]);
        lemma_run_first(dropping, done, seq![absent, released]);
        lemma_run_first(probing, absent, seq![released]);
    }
}

} // verus!
