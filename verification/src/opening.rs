//! How the index of a collection is opened.
//!
//! An index that is open already is used as it is. One that is not is made
//! empty, loaded from the collection's snapshot file where the file exists,
//! and only then kept open, so that an index whose snapshot could not be
//! loaded is never taken for the collection's index. Either way what the
//! index is established with is held against the configuration that the
//! caller supplies before the index is handed out.
//!
//! [`IndexOpening`] is this sequence as a state machine, in the manner of
//! the coordinators: it names the next step, the caller takes it and
//! reports what it found.
use crate::config::IndexConfig;
use crate::error::Fault;
use vstd::prelude::*;

verus! {

/// The step of an opening that is in flight.
#[derive(Debug, Clone, Copy, PartialEq, Eq, Structural)]
pub enum OpenPhase {
    Finding,
    Making,
    Probing,
    Loading,
    Keeping,
    Verifying,
}

/// A step for the caller to take.
#[derive(Debug, PartialEq, Eq)]
pub enum OpenAction {
    /// Look for the open index of `collection`, as
    /// [`crate::registry::Registry::handle`] does.
    Find { collection: String },
    /// Make an empty index under `config`, as
    /// [`crate::index::IndexHandle::create`] does.
    Make { config: IndexConfig },
    /// Tell whether the snapshot `file` exists.
    Probe { file: String },
    /// Load the snapshot `file` into the index that was made.
    Load { file: String },
    /// Keep the index that was made open as the index of `collection`, as
    /// [`crate::registry::Registry::open`] does.
    Keep { collection: String },
    /// Hold what the index is established with against `config`, as
    /// [`crate::index::IndexHandle::verify`] does.
    Verify { config: IndexConfig },
}

/// Mathematical value of an [`OpenAction`].
pub enum OpenActionView {
    Find { collection: Seq<char> },
    Make { config: IndexConfig },
    Probe { file: Seq<char> },
    Load { file: Seq<char> },
    Keep { collection: Seq<char> },
    Verify { config: IndexConfig },
}

impl View for OpenAction {
    type V = OpenActionView;

    open spec fn view(&self) -> OpenActionView {
        match *self {
            OpenAction::Find { collection } => OpenActionView::Find { collection: collection@ },
            OpenAction::Make { config } => OpenActionView::Make { config },
            OpenAction::Probe { file } => OpenActionView::Probe { file: file@ },
            OpenAction::Load { file } => OpenActionView::Load { file: file@ },
            OpenAction::Keep { collection } => OpenActionView::Keep { collection: collection@ },
            OpenAction::Verify { config } => OpenActionView::Verify { config },
        }
    }
}

/// What became of the step in flight.
#[derive(Debug, Clone, Copy, PartialEq, Eq, Structural)]
pub enum OpenEvent {
    /// It was done: the index was found open, the file exists, the
    /// configuration fits.
    Done,
    /// What was looked for is not there: no index is open, or there is no
    /// file.
    Absent,
    /// It failed.
    Failed { fault: Fault },
}

/// Mathematical value of an [`IndexOpening`].
pub struct IndexOpeningView {
    pub collection: Seq<char>,
    pub file: Seq<char>,
    pub config: IndexConfig,
    pub phase: OpenPhase,
}

/// Mathematical value of an [`OpenProgress`].
pub enum OpenProgressView {
    Next { machine: IndexOpeningView, action: OpenActionView },
    Finished { outcome: Result<(), Fault> },
}

impl IndexOpeningView {
    /// The state in which an opening starts.
    pub open spec fn initial(
        collection: Seq<char>,
        file: Seq<char>,
        config: IndexConfig,
    ) -> IndexOpeningView {
        IndexOpeningView { collection, file, config, phase: OpenPhase::Finding }
    }

    /// The step in flight.
    pub open spec fn pending(self) -> OpenActionView {
        match self.phase {
            OpenPhase::Finding => OpenActionView::Find { collection: self.collection },
            OpenPhase::Making => OpenActionView::Make { config: self.config },
            OpenPhase::Probing => OpenActionView::Probe { file: self.file },
            OpenPhase::Loading => OpenActionView::Load { file: self.file },
            OpenPhase::Keeping => OpenActionView::Keep { collection: self.collection },
            OpenPhase::Verifying => OpenActionView::Verify { config: self.config },
        }
    }

    /// The state with the given phase.
    pub open spec fn at(self, phase: OpenPhase) -> IndexOpeningView {
        IndexOpeningView { phase, ..self }
    }

    /// Where the opening stands while it goes on in state `self`.
    pub open spec fn going(self) -> OpenProgressView {
        OpenProgressView::Next { machine: self, action: self.pending() }
    }

    /// What follows when the step in flight is answered by `event`. An
    /// event that is no answer to the step counts as a storage fault.
    pub open spec fn step(self, event: OpenEvent) -> OpenProgressView {
        match (self.phase, event) {
            (OpenPhase::Finding, OpenEvent::Done) => self.at(OpenPhase::Verifying).going(),
            (OpenPhase::Finding, OpenEvent::Absent) => self.at(OpenPhase::Making).going(),
            (OpenPhase::Making, OpenEvent::Done) => self.at(OpenPhase::Probing).going(),
            (OpenPhase::Probing, OpenEvent::Done) => self.at(OpenPhase::Loading).going(),
            (OpenPhase::Probing, OpenEvent::Absent) => self.at(OpenPhase::Keeping).going(),
            (OpenPhase::Loading, OpenEvent::Done) => self.at(OpenPhase::Keeping).going(),
            (OpenPhase::Keeping, OpenEvent::Done) => self.at(OpenPhase::Verifying).going(),
            (OpenPhase::Verifying, OpenEvent::Done) => OpenProgressView::Finished {
                outcome: Ok(()),
            },
            (_, OpenEvent::Failed { fault }) => OpenProgressView::Finished { outcome: Err(fault) },
            (_, _) => OpenProgressView::Finished { outcome: Err(Fault::StorageIO) },
        }
    }

    /// What follows when the step in flight and those after it are answered
    /// by `events`, in order. Events after the end of the opening are not
    /// looked at.
    pub open spec fn run(self, events: Seq<OpenEvent>) -> OpenProgressView
        decreases events.len(),
    {
        if events.len() == 0 {
            self.going()
        } else {
            match self.step(events[0]) {
                OpenProgressView::Next { machine, .. } => machine.run(events.drop_first()),
                OpenProgressView::Finished { outcome } => OpenProgressView::Finished { outcome },
            }
        }
    }
}

/// An opening in progress.
pub struct IndexOpening {
    collection: String,
    file: String,
    config: IndexConfig,
    phase: OpenPhase,
}

/// What follows an answered step.
pub enum OpenProgress {
    /// The opening goes on: `action` is to be taken next, and its outcome
    /// reported to `machine`.
    Next { machine: IndexOpening, action: OpenAction },
    /// The opening is over. On success the index that was found, or the one
    /// that was kept, is the collection's open index and fits the supplied
    /// configuration.
    Finished { outcome: Result<(), Fault> },
}

impl View for IndexOpening {
    type V = IndexOpeningView;

    closed spec fn view(&self) -> IndexOpeningView {
        IndexOpeningView {
            collection: self.collection@,
            file: self.file@,
            config: self.config,
            phase: self.phase,
        }
    }
}

impl View for OpenProgress {
    type V = OpenProgressView;

    open spec fn view(&self) -> OpenProgressView {
        match *self {
            OpenProgress::Next { machine, action } => OpenProgressView::Next {
                machine: machine@,
                action: action@,
            },
            OpenProgress::Finished { outcome } => OpenProgressView::Finished { outcome },
        }
    }
}

impl IndexOpening {
    /// Starts the opening of the index of `collection`, whose snapshot file
    /// is `file`, under the configuration `config`. Returns the machine and
    /// the first step.
    pub fn begin(collection: String, file: String, config: IndexConfig) -> (start: (
        IndexOpening,
        OpenAction,
    ))
        ensures
            start.0@ == IndexOpeningView::initial(collection@, file@, config),
            start.1@ == start.0@.pending(),
    {
        let machine = IndexOpening { collection, file, config, phase: OpenPhase::Finding };
        let action = machine.pending();
        (machine, action)
    }

    /// The step in flight.
    pub fn pending(&self) -> (action: OpenAction)
        ensures
            action@ == self@.pending(),
    {
        match self.phase {
            OpenPhase::Finding => OpenAction::Find { collection: self.collection.clone() },
            OpenPhase::Making => OpenAction::Make { config: self.config },
            OpenPhase::Probing => OpenAction::Probe { file: self.file.clone() },
            OpenPhase::Loading => OpenAction::Load { file: self.file.clone() },
            OpenPhase::Keeping => OpenAction::Keep { collection: self.collection.clone() },
            OpenPhase::Verifying => OpenAction::Verify { config: self.config },
        }
    }

    /// Goes on at `phase`.
    fn proceed(self, phase: OpenPhase) -> (progress: OpenProgress)
        ensures
            progress@ == self@.at(phase).going(),
    {
        let machine = IndexOpening {
            collection: self.collection,
            file: self.file,
            config: self.config,
            phase,
        };
        let action = machine.pending();
        OpenProgress::Next { machine, action }
    }

    /// Answers the step in flight with what became of it.
    ///
    /// An index that is found open is verified at once. One that is not is
    /// made, loaded where its snapshot file exists, kept, and then verified.
    /// A failure ends the opening with that fault; the index that was made
    /// is then not kept, unless it is the verification that failed.
    pub fn step(self, event: OpenEvent) -> (progress: OpenProgress)
        ensures
            progress@ == self@.step(event),
    {
        match (self.phase, event) {
            (OpenPhase::Finding, OpenEvent::Done) => self.proceed(OpenPhase::Verifying),
            (OpenPhase::Finding, OpenEvent::Absent) => self.proceed(OpenPhase::Making),
            (OpenPhase::Making, OpenEvent::Done) => self.proceed(OpenPhase::Probing),
            (OpenPhase::Probing, OpenEvent::Done) => self.proceed(OpenPhase::Loading),
            (OpenPhase::Probing, OpenEvent::Absent) => self.proceed(OpenPhase::Keeping),
            (OpenPhase::Loading, OpenEvent::Done) => self.proceed(OpenPhase::Keeping),
            (OpenPhase::Keeping, OpenEvent::Done) => self.proceed(OpenPhase::Verifying),
            (OpenPhase::Verifying, OpenEvent::Done) => OpenProgress::Finished { outcome: Ok(()) },
            (_, OpenEvent::Failed { fault }) => OpenProgress::Finished { outcome: Err(fault) },
            (_, _) => OpenProgress::Finished { outcome: Err(Fault::StorageIO) },
        }
    }
}

/// Nothing is handed out unverified, and nothing is kept unloaded: an
/// opening succeeds only in answer to a verification that found the
/// configuration to fit; an index is made only where none was found open,
/// loaded only where its snapshot file was found to exist, and kept only
/// once it is loaded or there is nothing to load.
pub proof fn lemma_opening_order(s: IndexOpeningView, event: OpenEvent)
    ensures
        IndexOpeningView::initial(s.collection, s.file, s.config).pending() is Find,
        s.step(event) matches OpenProgressView::Finished { outcome: Ok(_) } ==> s.pending()
            == (OpenActionView::Verify { config: s.config }) && event is Done,
        s.step(event) matches OpenProgressView::Next { machine, action } ==> {
            &&& action == machine.pending()
            &&& machine.collection == s.collection
            &&& machine.file == s.file
            &&& machine.config == s.config
            &&& action is Make ==> s.pending() is Find && event is Absent
            &&& action is Probe ==> s.pending() is Make && event is Done
            &&& action is Load ==> s.pending() is Probe && event is Done
            &&& action is Keep ==> (s.pending() is Load && event is Done) || (s.pending()
                is Probe && event is Absent)
            &&& action is Verify ==> (s.pending() is Find && event is Done) || (s.pending()
                is Keep && event is Done)
        },
        event matches OpenEvent::Failed { fault } ==> s.step(event) == (
        OpenProgressView::Finished { outcome: Err(fault) }),
{
}

/// Running through a first event and then the rest is taking one step and
/// running through the rest.
pub proof fn lemma_run_first(s: IndexOpeningView, first: OpenEvent, rest: Seq<OpenEvent>)
    ensures
        s.run(seq![first] + rest) == match s.step(first) {
            OpenProgressView::Next { machine, .. } => machine.run(rest),
            OpenProgressView::Finished { outcome } => OpenProgressView::Finished { outcome },
        },
{
    let events = seq![first] + rest;
    assert(events[0] == first);
    assert(events.drop_first() =~= rest);
}

} // verus!
