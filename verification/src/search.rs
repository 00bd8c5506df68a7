//! The coordinator of a search.
//!
//! A search of a batch of queries in a collection is a fixed sequence of
//! operations:
//!
//! 1. the collection is acquired, together with other searches,
//! 2. the index is opened, from its snapshot where it is not open already
//!    and there is one, and the table is created unless it exists,
//! 3. for each query in input order, the query is checked, the index is
//!    asked for the nearest keys, and for each key in the order of the index
//!    the row of its chunk is read,
//! 4. the collection is released.
//!
//! A key whose row is missing is left out of the result; any other failure
//! stops the search. With a limit of zero the index is not asked at all.
//! Whatever fails, a collection that was acquired is released before the
//! search ends.
//!
//! [`SearchBatch`] is this sequence as a state machine, in the manner of
//! [`crate::insert::InsertBatch`]. A query's embedding stays with the caller,
//! who is told the query's position; a score is carried through as the 32
//! bits that the caller gave.
use crate::config::IndexConfig;
use crate::error::{surfaced, Fault, StoreError, StoreErrorView};
use crate::keys::{chunk_id, id_of, key_of, lemma_key_round_trip};
use crate::naming::{snapshot_file, snapshot_file_of};
use crate::row::{optional_text, views, RowView};
use crate::sql::{create_table_of, create_table_statement, select_row_of, select_row_statement};
use vstd::prelude::*;

verus! {

/// One result of a query: the text and the metadata of a chunk, and the
/// score of its vector.
#[derive(Debug, PartialEq, Eq)]
pub struct SearchHit {
    pub text: String,
    pub metadata: Option<String>,
    /// The bits of the score, as the caller reported them.
    pub score: u32,
}

/// Mathematical value of a [`SearchHit`].
pub struct SearchHitView {
    pub text: Seq<char>,
    pub metadata: Option<Seq<char>>,
    pub score: u32,
}

impl View for SearchHit {
    type V = SearchHitView;

    open spec fn view(&self) -> SearchHitView {
        SearchHitView {
            text: self.text@,
            metadata: optional_text(self.metadata),
            score: self.score,
        }
    }
}

/// A key that the index returned, with the bits of its score.
pub struct Match {
    pub key: u64,
    pub score: u32,
}

/// The operation of a search that is in flight.
#[derive(Debug, Clone, Copy, PartialEq, Eq, Structural)]
pub enum SearchPhase {
    Acquiring,
    OpeningIndex,
    EnsuringTable,
    /// The check of the first query that is not answered yet.
    CheckingQuery,
    /// That query.
    Querying,
    /// The row of the first match of that query that is not looked up yet.
    ReadingRow,
    /// The release of the collection, after which the search is over: with
    /// the results where nothing failed, with the fault where something did.
    Releasing { failure: Option<Fault> },
}

/// An operation for the caller to perform.
#[derive(Debug, PartialEq, Eq)]
pub enum SearchAction {
    /// Hold `collection` together with other searches: wait until
    /// [`crate::locks::LockTable::try_read`] grants it.
    Acquire { collection: String },
    /// Open the index of `collection`, whose snapshot file is `file`, under
    /// `config`, in the steps of [`crate::opening::IndexOpening`].
    OpenIndex { collection: String, file: String, config: IndexConfig },
    /// Run `statement`, which creates the table unless it exists.
    EnsureTable { statement: String },
    /// Decide whether the query at position `query` may be run, as
    /// [`crate::index::IndexHandle::check_query`] does.
    CheckQuery { query: usize },
    /// Ask the index for the `count` keys nearest to the query at position
    /// `query`, best first, and report them with their scores.
    Query { query: usize, count: usize },
    /// Run `statement` with the parameter `chunk_id` to read one row, and
    /// report its text and metadata, or that it is not found.
    ReadRow { statement: String, chunk_id: i64 },
    /// Let go of `collection`, as [`crate::locks::LockTable::release_read`] does.
    Release { collection: String },
}

/// Mathematical value of a [`SearchAction`].
pub enum SearchActionView {
    Acquire { collection: Seq<char> },
    OpenIndex { collection: Seq<char>, file: Seq<char>, config: IndexConfig },
    EnsureTable { statement: Seq<char> },
    CheckQuery { query: nat },
    Query { query: nat, count: nat },
    ReadRow { statement: Seq<char>, chunk_id: int },
    Release { collection: Seq<char> },
}

impl View for SearchAction {
    type V = SearchActionView;

    open spec fn view(&self) -> SearchActionView {
        match *self {
            SearchAction::Acquire { collection } => SearchActionView::Acquire {
                collection: collection@,
            },
            SearchAction::OpenIndex { collection, file, config } => SearchActionView::OpenIndex {
                collection: collection@,
                file: file@,
                config,
            },
            SearchAction::EnsureTable { statement } => SearchActionView::EnsureTable {
                statement: statement@,
            },
            SearchAction::CheckQuery { query } => SearchActionView::CheckQuery {
                query: query as nat,
            },
            SearchAction::Query { query, count } => SearchActionView::Query {
                query: query as nat,
                count: count as nat,
            },
            SearchAction::ReadRow { statement, chunk_id } => SearchActionView::ReadRow {
                statement: statement@,
                chunk_id: chunk_id as int,
            },
            SearchAction::Release { collection } => SearchActionView::Release {
                collection: collection@,
            },
        }
    }
}

/// What became of the operation in flight.
#[derive(Debug, PartialEq, Eq)]
pub enum SearchEvent {
    /// It succeeded, and it was neither a query nor the reading of a row.
    Done,
    /// The index returned `keys`, best first, and the score of each at the
    /// same position of `scores`.
    Matches { keys: Vec<u64>, scores: Vec<u32> },
    /// The row was read.
    Row { text: String, metadata: Option<String> },
    /// It failed. A row that does not exist is the fault
    /// [`Fault::NotFound`].
    Failed { fault: Fault },
}

/// Mathematical value of a [`SearchEvent`].
pub enum SearchEventView {
    Done,
    Matches { keys: Seq<u64>, scores: Seq<u32> },
    Row { text: Seq<char>, metadata: Option<Seq<char>> },
    Failed { fault: Fault },
}

impl View for SearchEvent {
    type V = SearchEventView;

    open spec fn view(&self) -> SearchEventView {
        match *self {
            SearchEvent::Done => SearchEventView::Done,
            SearchEvent::Matches { keys, scores } => SearchEventView::Matches {
                keys: keys@,
                scores: scores@,
            },
            SearchEvent::Row { text, metadata } => SearchEventView::Row {
                text: text@,
                metadata: optional_text(metadata),
            },
            SearchEvent::Failed { fault } => SearchEventView::Failed { fault },
        }
    }
}

/// The matches that are taken from an answer of the index: key and score
/// pair by pair for as long as both are there, and `limit` pairs at most.
pub open spec fn ranked(keys: Seq<u64>, scores: Seq<u32>, limit: nat) -> Seq<Match> {
    let pairs = if keys.len() <= scores.len() {
        keys.len()
    } else {
        scores.len()
    };
    Seq::new(
        if pairs <= limit {
            pairs
        } else {
            limit
        },
        |i: int| Match { key: keys[i], score: scores[i] },
    )
}

/// As many empty results as there are queries.
pub open spec fn no_hits(queries: nat) -> Seq<Seq<SearchHitView>> {
    Seq::new(queries, |i: int| Seq::<SearchHitView>::empty())
}

/// Mathematical value of a [`SearchBatch`].
pub struct SearchBatchView {
    pub collection: Seq<char>,
    pub config: IndexConfig,
    /// The most results that a query may have.
    pub limit: nat,
    /// The number of queries.
    pub queries: nat,
    /// The results of the queries that are answered, in input order.
    pub results: Seq<Seq<SearchHitView>>,
    /// The matches of the query in progress, best first.
    pub candidates: Seq<Match>,
    /// The number of those matches that are looked up.
    pub cursor: nat,
    /// The hits among the matches that are looked up, best first.
    pub hits: Seq<SearchHitView>,
    pub phase: SearchPhase,
}

/// Mathematical value of a [`SearchProgress`].
pub enum SearchProgressView {
    Next { machine: SearchBatchView, action: SearchActionView },
    Finished { outcome: Result<Seq<Seq<SearchHitView>>, StoreErrorView> },
}

impl SearchBatchView {
    /// The answered queries are a prefix of the batch, and the phase fits
    /// them and the matches.
    pub open spec fn wf(self) -> bool {
        match self.phase {
            SearchPhase::Acquiring | SearchPhase::OpeningIndex | SearchPhase::EnsuringTable => {
                &&& self.results.len() == 0
                &&& self.candidates.len() == 0
                &&& self.cursor == 0
                &&& self.hits.len() == 0
            },
            SearchPhase::CheckingQuery | SearchPhase::Querying => {
                &&& self.results.len() < self.queries
                &&& self.limit > 0
                &&& self.candidates.len() == 0
                &&& self.cursor == 0
                &&& self.hits.len() == 0
            },
            SearchPhase::ReadingRow => {
                &&& self.results.len() < self.queries
                &&& self.limit > 0
                &&& self.candidates.len() <= self.limit
                &&& self.cursor < self.candidates.len()
                &&& self.hits.len() <= self.cursor
            },
            SearchPhase::Releasing { failure } => failure is None ==> self.results.len()
                == self.queries,
        }
    }

    /// The state in which a search starts.
    pub open spec fn initial(
        collection: Seq<char>,
        config: IndexConfig,
        queries: nat,
        limit: nat,
    ) -> SearchBatchView {
        SearchBatchView {
            collection,
            config,
            limit,
            queries,
            results: Seq::empty(),
            candidates: Seq::empty(),
            cursor: 0,
            hits: Seq::empty(),
            phase: SearchPhase::Acquiring,
        }
    }

    /// The operation in flight.
    pub open spec fn pending(self) -> SearchActionView {
        match self.phase {
            SearchPhase::Acquiring => SearchActionView::Acquire { collection: self.collection },
            SearchPhase::OpeningIndex => SearchActionView::OpenIndex {
                collection: self.collection,
                file: snapshot_file_of(self.collection),
                config: self.config,
            },
            SearchPhase::EnsuringTable => SearchActionView::EnsureTable {
                statement: create_table_of(self.collection),
            },
            SearchPhase::CheckingQuery => SearchActionView::CheckQuery {
                query: self.results.len(),
            },
            SearchPhase::Querying => SearchActionView::Query {
                query: self.results.len(),
                count: self.limit,
            },
            SearchPhase::ReadingRow => SearchActionView::ReadRow {
                statement: select_row_of(self.collection),
                chunk_id: id_of(self.candidates[self.cursor as int].key as int),
            },
            SearchPhase::Releasing { .. } => SearchActionView::Release {
                collection: self.collection,
            },
        }
    }

    /// Whether the search holds the collection.
    pub open spec fn holds_collection(self) -> bool {
        !(self.phase is Acquiring)
    }

    /// The fault that `event` reports where it does not report success: the
    /// fault it names, and a storage fault where it is no answer to the
    /// operation in flight.
    pub open spec fn fault_of(event: SearchEventView) -> Fault {
        match event {
            SearchEventView::Failed { fault } => fault,
            _ => Fault::StorageIO,
        }
    }

    /// The state with the given phase.
    pub open spec fn at(self, phase: SearchPhase) -> SearchBatchView {
        SearchBatchView { phase, ..self }
    }

    /// The state in which the queries before position `results.len()` are
    /// answered with `results`: the next one is checked, or the collection
    /// is released where none is left.
    pub open spec fn answered_with(self, results: Seq<Seq<SearchHitView>>) -> SearchBatchView {
        SearchBatchView {
            results,
            candidates: Seq::empty(),
            cursor: 0,
            hits: Seq::empty(),
            phase: if results.len() >= self.queries {
                SearchPhase::Releasing { failure: None }
            } else {
                SearchPhase::CheckingQuery
            },
            ..self
        }
    }

    /// The state once a match is dealt with: the next match is looked up;
    /// where none is left, the query is answered with the hits found.
    pub open spec fn settled(self) -> SearchBatchView {
        if self.cursor < self.candidates.len() {
            self.at(SearchPhase::ReadingRow)
        } else {
            self.answered_with(self.results.push(self.hits))
        }
    }

    /// The state after the operation in flight is answered by `event`,
    /// where the search holds the collection and is not releasing it.
    pub open spec fn moved(self, event: SearchEventView) -> SearchBatchView {
        let stopped = self.at(SearchPhase::Releasing { failure: Some(Self::fault_of(event)) });
        match self.phase {
            SearchPhase::OpeningIndex => {
                if event is Done {
                    self.at(SearchPhase::EnsuringTable)
                } else {
                    stopped
                }
            },
            SearchPhase::EnsuringTable => {
                if !(event is Done) {
                    stopped
                } else if self.limit == 0 {
                    self.answered_with(no_hits(self.queries))
                } else {
                    self.answered_with(Seq::empty())
                }
            },
            SearchPhase::CheckingQuery => {
                if event is Done {
                    self.at(SearchPhase::Querying)
                } else {
                    stopped
                }
            },
            SearchPhase::Querying => match event {
                SearchEventView::Matches { keys, scores } => SearchBatchView {
                    candidates: ranked(keys, scores, self.limit),
                    cursor: 0,
                    hits: Seq::empty(),
                    ..self
                }.settled(),
                _ => stopped,
            },
            SearchPhase::ReadingRow => match event {
                SearchEventView::Row { text, metadata } => SearchBatchView {
                    hits: self.hits.push(
                        SearchHitView {
                            text,
                            metadata,
                            score: self.candidates[self.cursor as int].score,
                        },
                    ),
                    cursor: self.cursor + 1,
                    ..self
                }.settled(),
                SearchEventView::Failed { fault: Fault::NotFound } => SearchBatchView {
                    cursor: self.cursor + 1,
                    ..self
                }.settled(),
                _ => stopped,
            },
            _ => self,
        }
    }

    /// What a search reports once the collection is released.
    pub open spec fn outcome(self, failure: Option<Fault>) -> Result<
        Seq<Seq<SearchHitView>>,
        StoreErrorView,
    > {
        match failure {
            None => Ok(self.results),
            Some(fault) => Err(surfaced(fault)),
        }
    }

    /// What follows when the operation in flight is answered by `event`.
    pub open spec fn step(self, event: SearchEventView) -> SearchProgressView {
        match self.phase {
            SearchPhase::Releasing { failure } => SearchProgressView::Finished {
                outcome: self.outcome(failure),
            },
            SearchPhase::Acquiring => {
                if event is Done {
                    let next = self.at(SearchPhase::OpeningIndex);
                    SearchProgressView::Next { machine: next, action: next.pending() }
                } else {
                    SearchProgressView::Finished {
                        outcome: Err(surfaced(Self::fault_of(event))),
                    }
                }
            },
            _ => {
                let next = self.moved(event);
                SearchProgressView::Next { machine: next, action: next.pending() }
            },
        }
    }

    /// What is left to do when the search is given up: the release of the
    /// collection, where it is held.
    pub open spec fn abandoned(self) -> Option<SearchActionView> {
        if self.holds_collection() {
            Some(SearchActionView::Release { collection: self.collection })
        } else {
            None
        }
    }
}

/// The fields of a search in progress.
struct SearchState {
    collection: String,
    config: IndexConfig,
    limit: usize,
    queries: usize,
    results: Vec<Vec<SearchHit>>,
    keys: Vec<u64>,
    scores: Vec<u32>,
    /// How many of `keys` and `scores` are matches.
    taken: usize,
    cursor: usize,
    hits: Vec<SearchHit>,
    phase: SearchPhase,
}

/// A search in progress.
pub struct SearchBatch {
    state: SearchState,
}

/// What follows an answered operation.
pub enum SearchProgress {
    /// The search goes on: `action` is to be performed next, and its outcome
    /// reported to `machine`.
    Next { machine: SearchBatch, action: SearchAction },
    /// The search is over, and the collection is not held. On success the
    /// outcome holds the hits of every query, in input order, each best
    /// first.
    Finished { outcome: Result<Vec<Vec<SearchHit>>, StoreError> },
}

/// Mathematical value of the results of several queries.
pub open spec fn hit_lists(lists: Seq<Vec<SearchHit>>) -> Seq<Seq<SearchHitView>> {
    Seq::new(lists.len(), |i: int| views(lists[i]@))
}

/// Mathematical value of the outcome of a search.
pub open spec fn outcome_view(outcome: Result<Vec<Vec<SearchHit>>, StoreError>) -> Result<
    Seq<Seq<SearchHitView>>,
    StoreErrorView,
> {
    match outcome {
        Ok(lists) => Ok(hit_lists(lists@)),
        Err(error) => Err(error@),
    }
}

/// Mathematical value of an optional operation.
pub open spec fn optional_action(action: Option<SearchAction>) -> Option<SearchActionView> {
    match action {
        Some(a) => Some(a@),
        None => None,
    }
}

impl SearchState {
    /// Mathematical value of the search that has these fields.
    closed spec fn view(&self) -> SearchBatchView {
        SearchBatchView {
            collection: self.collection@,
            config: self.config,
            limit: self.limit as nat,
            queries: self.queries as nat,
            results: hit_lists(self.results@),
            candidates: Seq::new(
                self.taken as nat,
                |i: int| Match { key: self.keys@[i], score: self.scores@[i] },
            ),
            cursor: self.cursor as nat,
            hits: views(self.hits@),
            phase: self.phase,
        }
    }

    /// As many keys and scores are there as are taken for matches.
    closed spec fn backed(&self) -> bool {
        &&& self.taken <= self.keys@.len()
        &&& self.taken <= self.scores@.len()
    }
}

impl View for SearchBatch {
    type V = SearchBatchView;

    closed spec fn view(&self) -> SearchBatchView {
        self.state.view()
    }
}

impl View for SearchProgress {
    type V = SearchProgressView;

    open spec fn view(&self) -> SearchProgressView {
        match *self {
            SearchProgress::Next { machine, action } => SearchProgressView::Next {
                machine: machine@,
                action: action@,
            },
            SearchProgress::Finished { outcome } => SearchProgressView::Finished {
                outcome: outcome_view(outcome),
            },
        }
    }
}

/// As many empty results as there are queries.
fn empty_results(queries: usize) -> (lists: Vec<Vec<SearchHit>>)
    ensures
        hit_lists(lists@) == no_hits(queries as nat),
{
    let mut lists: Vec<Vec<SearchHit>> = Vec::new();
    while lists.len() < queries
        invariant
            lists.len() <= queries,
            forall|i: int| 0 <= i < lists.len() ==> (#[trigger] lists[i])@.len() == 0,
        decreases queries - lists.len(),
    {
        lists.push(Vec::new());
    }
    assert(hit_lists(lists@) =~= no_hits(queries as nat)) by {
        assert forall|i: int| 0 <= i < lists.len() implies #[trigger] hit_lists(lists@)[i]
            == Seq::<SearchHitView>::empty() by {
            assert(views(lists[i]@) =~= Seq::<SearchHitView>::empty());
        }
    }
    lists
}

impl SearchBatch {
    #[verifier::type_invariant]
    spec fn inv(self) -> bool {
        &&& self@.wf()
        &&& self.state.backed()
    }

    /// Starts the search of `queries` queries in `collection`, whose index
    /// has the configuration `config`, for `limit` results at most per
    /// query. Returns the machine and the first operation.
    pub fn begin(collection: String, config: IndexConfig, queries: usize, limit: usize) -> (start: (
        SearchBatch,
        SearchAction,
    ))
        ensures
            start.0@ == SearchBatchView::initial(collection@, config, queries as nat, limit as nat),
            start.0@.wf(),
            start.1@ == start.0@.pending(),
    {
        let state = SearchState {
            collection,
            config,
            limit,
            queries,
            results: Vec::new(),
            keys: Vec::new(),
            scores: Vec::new(),
            taken: 0,
            cursor: 0,
            hits: Vec::new(),
            phase: SearchPhase::Acquiring,
        };
        proof {
            assert(state.view().results =~= Seq::empty());
            assert(state.view().candidates =~= Seq::empty());
            assert(state.view().hits =~= Seq::empty());
        }
        let machine = SearchBatch { state };
        let action = machine.pending();
        (machine, action)
    }

    /// The operation in flight.
    pub fn pending(&self) -> (action: SearchAction)
        ensures
            action@ == self@.pending(),
    {
        proof {
            use_type_invariant(self);
        }
        let state = &self.state;
        match state.phase {
            SearchPhase::Acquiring => SearchAction::Acquire {
                collection: state.collection.clone(),
            },
            SearchPhase::OpeningIndex => SearchAction::OpenIndex {
                collection: state.collection.clone(),
                file: snapshot_file(state.collection.as_str()),
                config: state.config,
            },
            SearchPhase::EnsuringTable => SearchAction::EnsureTable {
                statement: create_table_statement(state.collection.as_str()),
            },
            SearchPhase::CheckingQuery => SearchAction::CheckQuery { query: state.results.len() },
            SearchPhase::Querying => SearchAction::Query {
                query: state.results.len(),
                count: state.limit,
            },
            SearchPhase::ReadingRow => SearchAction::ReadRow {
                statement: select_row_statement(state.collection.as_str()),
                chunk_id: chunk_id(state.keys[state.cursor]),
            },
            SearchPhase::Releasing { .. } => SearchAction::Release {
                collection: state.collection.clone(),
            },
        }
    }

    /// Gives the search up, as when its caller is cancelled. Returns what is
    /// left to do: the release of the collection where the search holds it,
    /// nothing where it does not. No further row is read.
    pub fn abandon(self) -> (action: Option<SearchAction>)
        ensures
            optional_action(action) == self@.abandoned(),
    {
        match self.state.phase {
            SearchPhase::Acquiring => None,
            _ => Some(SearchAction::Release { collection: self.state.collection }),
        }
    }

    /// Goes on at `phase`.
    fn proceed(state: SearchState, phase: SearchPhase) -> (progress: SearchProgress)
        requires
            state.view().at(phase).wf(),
            state.backed(),
        ensures
            progress@ == (SearchProgressView::Next {
                machine: state.view().at(phase),
                action: state.view().at(phase).pending(),
            }),
            progress matches SearchProgress::Next { machine, .. } && machine@.wf(),
    {
        let mut state = state;
        state.phase = phase;
        let machine = SearchBatch { state };
        let action = machine.pending();
        SearchProgress::Next { machine, action }
    }

    /// Goes on with the query in progress answered, or with no query to
    /// ask.
    fn answer(state: SearchState, results: Vec<Vec<SearchHit>>) -> (progress: SearchProgress)
        requires
            state.backed(),
            hit_lists(results@).len() <= state.view().queries,
            hit_lists(results@).len() < state.view().queries ==> state.view().limit > 0,
        ensures
            progress@ == (SearchProgressView::Next {
                machine: state.view().answered_with(hit_lists(results@)),
                action: state.view().answered_with(hit_lists(results@)).pending(),
            }),
            progress matches SearchProgress::Next { machine, .. } && machine@.wf(),
    {
        let ghost before = state.view();
        let mut state = state;
        state.results = results;
        state.taken = 0;
        state.cursor = 0;
        state.hits = Vec::new();
        proof {
            assert(state.view().candidates =~= Seq::empty());
            assert(state.view().hits =~= Seq::empty());
        }
        let phase = if state.results.len() >= state.queries {
            SearchPhase::Releasing { failure: None }
        } else {
            SearchPhase::CheckingQuery
        };
        assert(state.view().at(phase) == before.answered_with(hit_lists(results@)));
        Self::proceed(state, phase)
    }

    /// Goes on once a match is dealt with.
    fn settle(state: SearchState) -> (progress: SearchProgress)
        requires
            state.backed(),
            state.view().results.len() < state.view().queries,
            state.view().limit > 0,
            state.view().candidates.len() <= state.view().limit,
            state.view().cursor <= state.view().candidates.len(),
            state.view().hits.len() <= state.view().cursor,
        ensures
            progress@ == (SearchProgressView::Next {
                machine: state.view().settled(),
                action: state.view().settled().pending(),
            }),
            progress matches SearchProgress::Next { machine, .. } && machine@.wf(),
    {
        let ghost before = state.view();
        let mut state = state;
        if state.cursor < state.taken {
            Self::proceed(state, SearchPhase::ReadingRow)
        } else {
            let mut hits: Vec<SearchHit> = Vec::new();
            std::mem::swap(&mut hits, &mut state.hits);
            let mut results: Vec<Vec<SearchHit>> = Vec::new();
            std::mem::swap(&mut results, &mut state.results);
            results.push(hits);
            proof {
                assert(hit_lists(results@) =~= before.results.push(before.hits));
                assert(state.view().answered_with(hit_lists(results@)) == before.answered_with(
                    hit_lists(results@),
                ));
            }
            Self::answer(state, results)
        }
    }

    /// Stops the search with the fault that `event` reports.
    fn stop(state: SearchState, event: SearchEvent) -> (progress: SearchProgress)
        requires
            state.backed(),
        ensures
            progress@ == (SearchProgressView::Next {
                machine: state.view().at(
                    SearchPhase::Releasing {
                        failure: Some(SearchBatchView::fault_of(event@)),
                    },
                ),
                action: SearchActionView::Release { collection: state.view().collection },
            }),
            progress matches SearchProgress::Next { machine, .. } && machine@.wf(),
    {
        let fault = match event {
            SearchEvent::Failed { fault } => fault,
            _ => Fault::StorageIO,
        };
        Self::proceed(state, SearchPhase::Releasing { failure: Some(fault) })
    }

    /// Answers the operation in flight with what became of it.
    ///
    /// An event that reports success moves the search on. A row that is not
    /// found is left out and the search goes on. Any other failure, a query
    /// that does not pass its check among them, stops the search with that
    /// fault, and an event that is no answer to the
    /// operation in flight counts as a storage fault. Of the keys that the
    /// index returns, those beyond the limit, and those without a score,
    /// are not looked at.
    ///
    /// However the search stops, a collection that was acquired is released
    /// before the search is over: the outcome is given in answer to the
    /// release, whatever became of it, and only a collection that could not
    /// be acquired ends the search without one.
    pub fn step(self, event: SearchEvent) -> (progress: SearchProgress)
        ensures
            progress@ == self@.step(event@),
            progress matches SearchProgress::Next { machine, .. } ==> machine@.wf(),
    {
        proof {
            use_type_invariant(&self);
        }
        let ghost before = self@;
        let SearchBatch { mut state } = self;
        match state.phase {
            SearchPhase::Releasing { failure } => {
                let outcome = match failure {
                    None => Ok(state.results),
                    Some(fault) => Err(StoreError::from_fault(fault)),
                };
                SearchProgress::Finished { outcome }
            },
            SearchPhase::Acquiring => match event {
                SearchEvent::Done => Self::proceed(state, SearchPhase::OpeningIndex),
                other => {
                    let fault = match other {
                        SearchEvent::Failed { fault } => fault,
                        _ => Fault::StorageIO,
                    };
                    SearchProgress::Finished { outcome: Err(StoreError::from_fault(fault)) }
                },
            },
            SearchPhase::OpeningIndex => match event {
                SearchEvent::Done => Self::proceed(state, SearchPhase::EnsuringTable),
                other => Self::stop(state, other),
            },
            SearchPhase::EnsuringTable => match event {
                SearchEvent::Done => {
                    let results = if state.limit == 0 {
                        empty_results(state.queries)
                    } else {
                        Vec::new()
                    };
                    proof {
                        assert(state.limit != 0 ==> hit_lists(results@) =~= Seq::<
                            Seq<SearchHitView>,
                        >::empty());
                    }
                    Self::answer(state, results)
                },
                other => Self::stop(state, other),
            },
            SearchPhase::CheckingQuery => match event {
                SearchEvent::Done => Self::proceed(state, SearchPhase::Querying),
                other => Self::stop(state, other),
            },
            SearchPhase::Querying => match event {
                SearchEvent::Matches { keys, scores } => {
                    let pairs: usize = if keys.len() <= scores.len() {
                        keys.len()
                    } else {
                        scores.len()
                    };
                    state.taken = if pairs <= state.limit {
                        pairs
                    } else {
                        state.limit
                    };
                    state.keys = keys;
                    state.scores = scores;
                    proof {
                        assert(state.view().candidates =~= ranked(keys@, scores@, before.limit));
                        assert(state.view().hits =~= Seq::empty());
                    }
                    Self::settle(state)
                },
                other => Self::stop(state, other),
            },
            SearchPhase::ReadingRow => match event {
                SearchEvent::Row { text, metadata } => {
                    let score: u32 = state.scores[state.cursor];
                    let ghost found = SearchHitView {
                        text: text@,
                        metadata: optional_text(metadata),
                        score,
                    };
                    state.hits.push(SearchHit { text, metadata, score });
                    state.cursor = state.cursor + 1;
                    proof {
                        assert(views(state.hits@) =~= before.hits.push(found));
                    }
                    Self::settle(state)
                },
                SearchEvent::Failed { fault: Fault::NotFound } => {
                    state.cursor = state.cursor + 1;
                    Self::settle(state)
                },
                other => Self::stop(state, other),
            },
        }
    }
}

/// What the stores answer to one query: the keys and scores that the index
/// returns, and for each match that is taken from them, in order, the row
/// that the table holds for it, if any.
pub struct QueryAnswer {
    pub keys: Seq<u64>,
    pub scores: Seq<u32>,
    pub rows: Seq<Option<RowView>>,
}

impl QueryAnswer {
    /// The matches that are taken from the answer under the limit `limit`.
    pub open spec fn candidates(self, limit: nat) -> Seq<Match> {
        ranked(self.keys, self.scores, limit)
    }

    /// Whether the answer holds one row, or its absence, for every match.
    pub open spec fn fits(self, limit: nat) -> bool {
        self.rows.len() == self.candidates(limit).len()
    }

    /// The events in which the query passes its check and the stores give
    /// the answer.
    pub open spec fn events(self) -> Seq<SearchEventView> {
        seq![
            SearchEventView::Done,
            SearchEventView::Matches { keys: self.keys, scores: self.scores },
        ] + lookups(self.rows)
    }

    /// The hits of the query.
    pub open spec fn hits(self, limit: nat) -> Seq<SearchHitView> {
        hydrated(self.candidates(limit), self.rows, self.rows.len())
    }
}

/// The events in which the table answers the reading of rows: a row where
/// it holds one, the fault [`Fault::NotFound`] where it does not.
pub open spec fn lookups(rows: Seq<Option<RowView>>) -> Seq<SearchEventView> {
    Seq::new(
        rows.len(),
        |i: int|
            match rows[i] {
                Some(row) => SearchEventView::Row { text: row.text, metadata: row.metadata },
                None => SearchEventView::Failed { fault: Fault::NotFound },
            },
    )
}

/// The hits among the first `count` matches: in the order of the matches,
/// each match that has a row, with the text and metadata of the row and the
/// score of the match.
pub open spec fn hydrated(found: Seq<Match>, rows: Seq<Option<RowView>>, count: nat) -> Seq<
    SearchHitView,
>
    decreases count,
{
    if count == 0 {
        Seq::empty()
    } else {
        let before = hydrated(found, rows, (count - 1) as nat);
        match rows[count - 1] {
            Some(row) => before.push(
                SearchHitView {
                    text: row.text,
                    metadata: row.metadata,
                    score: found[count - 1].score,
                },
            ),
            None => before,
        }
    }
}

/// The events in which the stores answer several queries, one after the
/// other.
pub open spec fn answer_events(answers: Seq<QueryAnswer>) -> Seq<SearchEventView>
    decreases answers.len(),
{
    if answers.len() == 0 {
        Seq::empty()
    } else {
        answer_events(answers.drop_last()) + answers.last().events()
    }
}

/// The events in which the collection is acquired, the set-up succeeds, and
/// the stores answer the queries one after the other.
pub open spec fn events_through(answers: Seq<QueryAnswer>) -> Seq<SearchEventView> {
    seq![SearchEventView::Done, SearchEventView::Done, SearchEventView::Done] + answer_events(
        answers,
    )
}

/// The hits of several queries, query by query.
pub open spec fn answer_hits(answers: Seq<QueryAnswer>, limit: nat) -> Seq<Seq<SearchHitView>> {
    Seq::new(answers.len(), |q: int| answers[q].hits(limit))
}

impl SearchBatchView {
    /// What follows when the operation in flight and those after it are
    /// answered by `events`, in order. Events after the end of the search
    /// are not looked at.
    pub open spec fn run(self, events: Seq<SearchEventView>) -> SearchProgressView
        decreases events.len(),
    {
        if events.len() == 0 {
            SearchProgressView::Next { machine: self, action: self.pending() }
        } else {
            match self.step(events[0]) {
                SearchProgressView::Next { machine, .. } => machine.run(events.drop_first()),
                SearchProgressView::Finished { outcome } => SearchProgressView::Finished {
                    outcome,
                },
            }
        }
    }

    /// Where the search stands while it goes on in state `self`.
    pub open spec fn going(self) -> SearchProgressView {
        SearchProgressView::Next { machine: self, action: self.pending() }
    }
}

/// A well-formed state stays well-formed, and a search never changes its
/// collection, its configuration, its limit or the number of its queries,
/// and never takes back the result of a query.
pub proof fn lemma_step_preserves(s: SearchBatchView, event: SearchEventView)
    requires
        s.wf(),
    ensures
        s.step(event) matches SearchProgressView::Next { machine, action } ==> {
            &&& machine.wf()
            &&& action == machine.pending()
            &&& machine.collection == s.collection
            &&& machine.config == s.config
            &&& machine.limit == s.limit
            &&& machine.queries == s.queries
            &&& s.results.is_prefix_of(machine.results)
        },
{
    if let SearchEventView::Matches { keys, scores } = event {
        assert(ranked(keys, scores, s.limit).len() <= s.limit);
    }
}

/// The collection is held throughout, and let go at the end: the first
/// operation of a search is the acquisition; nothing else is asked for
/// before it is granted; once it is granted every way the search can go
/// leads through a release, in answer to which, and to nothing else, the
/// search ends; and a search that could not acquire the collection ends
/// without touching it.
pub proof fn lemma_release_on_every_path(s: SearchBatchView, event: SearchEventView)
    requires
        s.wf(),
    ensures
        SearchBatchView::initial(s.collection, s.config, s.queries, s.limit).pending() == (
        SearchActionView::Acquire { collection: s.collection }),
        s.pending() is Acquire <==> !s.holds_collection(),
        s.step(event) matches SearchProgressView::Next { machine, .. } ==> machine.holds_collection(),
        s.step(event) is Finished <==> s.pending() is Release || (s.pending() is Acquire && !(event
            is Done)),
        s.holds_collection() ==> s.abandoned() == Some(
            SearchActionView::Release { collection: s.collection },
        ),
        !s.holds_collection() ==> s.abandoned() is None,
{
}

/// A failure stops the search: whatever fails once the collection is held,
/// but for a row that is not found, the next operation is the release, and
/// in answer to it the search ends with the fault.
pub proof fn lemma_failure_is_surfaced(s: SearchBatchView, fault: Fault, released: SearchEventView)
    requires
        s.wf(),
        s.holds_collection(),
        !(s.phase is Releasing),
        !(s.phase is ReadingRow && fault is NotFound),
    ensures
        ({
            let releasing = s.at(SearchPhase::Releasing { failure: Some(fault) });
            &&& s.step(SearchEventView::Failed { fault }) == releasing.going()
            &&& releasing.pending() is Release
            &&& releasing.step(released) == (SearchProgressView::Finished {
                outcome: Err(surfaced(fault)),
            })
        }),
{
}

/// A row is read under the id of the chunk whose key the index returned:
/// the id that is asked for stands for the key of the match that is looked
/// up.
pub proof fn lemma_row_follows_key(s: SearchBatchView)
    requires
        s.wf(),
    ensures
        s.pending() matches SearchActionView::ReadRow { chunk_id, .. } ==> {
            &&& s.cursor < s.candidates.len()
            &&& chunk_id == id_of(s.candidates[s.cursor as int].key as int)
            &&& key_of(chunk_id) == s.candidates[s.cursor as int].key
            &&& i64::MIN <= chunk_id <= i64::MAX
        },
{
    if s.phase is ReadingRow {
        lemma_key_round_trip(s.candidates[s.cursor as int].key as int);
    }
}

/// With a limit of zero no query is checked, the index is not asked, and
/// no row is read.
pub proof fn lemma_zero_limit_asks_nothing(s: SearchBatchView, event: SearchEventView)
    requires
        s.wf(),
        s.limit == 0,
    ensures
        !(s.pending() is CheckQuery) && !(s.pending() is Query) && !(s.pending() is ReadRow),
        s.step(event) matches SearchProgressView::Next { action, .. } ==> !(action is CheckQuery)
            && !(action is Query) && !(action is ReadRow),
{
}

/// A query that is refused is never run: the index is only ever asked in
/// answer to a check that let the query pass.
pub proof fn lemma_refused_query_is_not_run(s: SearchBatchView, event: SearchEventView)
    requires
        s.wf(),
    ensures
        s.step(event) matches SearchProgressView::Next {
            action: SearchActionView::Query { query, .. },
            ..
        } ==> s.pending() == (SearchActionView::CheckQuery { query }) && event is Done,
{
}

/// Running through two sequences of events one after the other is running
/// through their concatenation.
pub proof fn lemma_run_concat(
    s: SearchBatchView,
    first: Seq<SearchEventView>,
    rest: Seq<SearchEventView>,
)
    ensures
        s.run(first + rest) == match s.run(first) {
            SearchProgressView::Next { machine, .. } => machine.run(rest),
            SearchProgressView::Finished { outcome } => SearchProgressView::Finished { outcome },
        },
    decreases first.len(),
{
    if first.len() == 0 {
        assert(first + rest =~= rest);
    } else {
        assert((first + rest)[0] == first[0]);
        assert((first + rest).drop_first() =~= first.drop_first() + rest);
        match s.step(first[0]) {
            SearchProgressView::Next { machine, .. } => {
                lemma_run_concat(machine, first.drop_first(), rest);
            },
            SearchProgressView::Finished { .. } => {},
        }
    }
}

/// Running through one event is taking one step.
proof fn lemma_run_one(s: SearchBatchView, event: SearchEventView)
    ensures
        s.run(seq![event]) == match s.step(event) {
            SearchProgressView::Next { machine, .. } => machine.going(),
            SearchProgressView::Finished { outcome } => SearchProgressView::Finished { outcome },
        },
{
    let events = seq![event];
    let none = Seq::<SearchEventView>::empty();
    assert(events.drop_first() =~= none);
    assert(events[0] == event);
    match s.step(event) {
        SearchProgressView::Next { machine, .. } => {
            assert(machine.run(none) == machine.going());
            assert(s.run(events) == machine.run(events.drop_first()));
        },
        SearchProgressView::Finished { outcome } => {
            assert(s.run(events) == (SearchProgressView::Finished { outcome }));
        },
    }
}

/// No more hits than matches looked up.
proof fn lemma_hydrated_is_short(found: Seq<Match>, rows: Seq<Option<RowView>>, count: nat)
    ensures
        hydrated(found, rows, count).len() <= count,
    decreases count,
{
    if count > 0 {
        lemma_hydrated_is_short(found, rows, (count - 1) as nat);
    }
}

/// Looking up the matches of a query from the match at position `from` on
/// answers the query with the hits among all its matches.
proof fn lemma_lookups_hydrate(
    s: SearchBatchView,
    found: Seq<Match>,
    rows: Seq<Option<RowView>>,
    from: nat,
)
    requires
        s.phase is Querying,
        s.wf(),
        found.len() <= s.limit,
        rows.len() == found.len(),
        from < found.len(),
    ensures
        ({
            let here = SearchBatchView {
                candidates: found,
                cursor: from,
                hits: hydrated(found, rows, from),
                phase: SearchPhase::ReadingRow,
                ..s
            };
            here.run(lookups(rows).skip(from as int)) == s.answered_with(
                s.results.push(hydrated(found, rows, rows.len())),
            ).going()
        }),
    decreases found.len() - from,
{
    lemma_hydrated_is_short(found, rows, from);
    let here = SearchBatchView {
        candidates: found,
        cursor: from,
        hits: hydrated(found, rows, from),
        phase: SearchPhase::ReadingRow,
        ..s
    };
    let events = lookups(rows).skip(from as int);
    let event = lookups(rows)[from as int];
    assert(events[0] == event);
    assert(events.drop_first() =~= lookups(rows).skip(from + 1 as int));
    let looked_up = SearchBatchView {
        candidates: found,
        cursor: from + 1,
        hits: hydrated(found, rows, from + 1),
        phase: SearchPhase::ReadingRow,
        ..s
    };
    assert(here.moved(event) == looked_up.settled());
    assert(here.step(event) == looked_up.settled().going());
    assert(here.run(events) == looked_up.settled().run(events.drop_first()));
    if from + 1 < found.len() {
        lemma_lookups_hydrate(s, found, rows, from + 1);
        assert(looked_up.settled() == looked_up);
    } else {
        assert(events.drop_first() =~= Seq::<SearchEventView>::empty());
        assert(looked_up.settled() == s.answered_with(
            s.results.push(hydrated(found, rows, rows.len())),
        ));
    }
}

/// The result of a query is the hits among its matches: of the keys that
/// the index returns, best first and no more than the limit, those whose
/// row the table holds, in the same order, each with the text and metadata
/// of its row and the score of its match. A key without a row is left out
/// and is no error.
pub proof fn lemma_query_hydrates(s: SearchBatchView, answer: QueryAnswer)
    requires
        s.wf(),
        s.phase is CheckingQuery,
        answer.fits(s.limit),
    ensures
        s.run(answer.events()) == s.answered_with(s.results.push(answer.hits(s.limit))).going(),
        s.answered_with(s.results.push(answer.hits(s.limit))).wf(),
{
    let found = answer.candidates(s.limit);
    let rows = answer.rows;
    let passed = SearchEventView::Done;
    let asked = SearchEventView::Matches { keys: answer.keys, scores: answer.scores };
    let asking = s.at(SearchPhase::Querying);
    let taken = SearchBatchView { candidates: found, cursor: 0, hits: Seq::empty(), ..asking };
    assert(answer.events() =~= seq![passed] + (seq![asked] + lookups(rows)));
    lemma_run_concat(s, seq![passed], seq![asked] + lookups(rows));
    lemma_run_one(s, passed);
    assert(asking.moved(asked) == taken.settled());
    lemma_run_concat(asking, seq![asked], lookups(rows));
    lemma_run_one(asking, asked);
    assert(s.hits =~= Seq::<SearchHitView>::empty());
    assert(hydrated(found, rows, 0) =~= Seq::<SearchHitView>::empty());
    let answered = s.answered_with(s.results.push(answer.hits(s.limit)));
    assert(asking.answered_with(s.results.push(answer.hits(s.limit))) == answered);
    if found.len() == 0 {
        assert(lookups(rows) =~= Seq::<SearchEventView>::empty());
        assert(taken.settled() == answered);
        assert(taken.settled().run(lookups(rows)) == taken.settled().going());
    } else {
        lemma_lookups_hydrate(asking, found, rows, 0);
        assert(lookups(rows).skip(0) =~= lookups(rows));
        let first = SearchBatchView {
            candidates: found,
            cursor: 0,
            hits: hydrated(found, rows, 0),
            phase: SearchPhase::ReadingRow,
            ..asking
        };
        assert(taken.settled() == first);
    }
}

/// The best match with a row is the first hit: where the table holds the
/// row of the key that the index returned first, the first result of the
/// query has the text and metadata of that row and the score of that key.
pub proof fn lemma_top_match_is_top_hit(answer: QueryAnswer, limit: nat)
    requires
        answer.fits(limit),
        answer.rows.len() > 0,
        answer.rows[0] is Some,
    ensures
        answer.hits(limit).len() > 0,
        answer.hits(limit)[0] == (SearchHitView {
            text: answer.rows[0]->0.text,
            metadata: answer.rows[0]->0.metadata,
            score: answer.candidates(limit)[0].score,
        }),
        answer.candidates(limit)[0].key == answer.keys[0],
{
    lemma_first_hit(answer.candidates(limit), answer.rows, answer.rows.len());
}

/// The hit of the first match stays first.
proof fn lemma_first_hit(found: Seq<Match>, rows: Seq<Option<RowView>>, count: nat)
    requires
        1 <= count <= rows.len(),
        rows[0] is Some,
    ensures
        hydrated(found, rows, count).len() > 0,
        hydrated(found, rows, count)[0] == (SearchHitView {
            text: rows[0]->0.text,
            metadata: rows[0]->0.metadata,
            score: found[0].score,
        }),
    decreases count,
{
    if count == 1 {
        assert(hydrated(found, rows, 0) =~= Seq::<SearchHitView>::empty());
    } else {
        lemma_first_hit(found, rows, (count - 1) as nat);
    }
}

/// While the stores succeed, the queries are answered in input order: after
/// the acquisition, the set-up and the answers to the first `answers.len()`
/// queries, the result of each of those queries is the hits among its
/// matches. The search then asks the next query, or releases the collection
/// where none is left.
pub proof fn lemma_run_answers_in_order(
    collection: Seq<char>,
    config: IndexConfig,
    queries: nat,
    limit: nat,
    answers: Seq<QueryAnswer>,
)
    requires
        limit > 0,
        answers.len() <= queries,
        forall|q: int| 0 <= q < answers.len() ==> (#[trigger] answers[q]).fits(limit),
    ensures
        ({
            let start = SearchBatchView::initial(collection, config, queries, limit);
            let reached = start.answered_with(answer_hits(answers, limit));
            &&& reached.wf()
            &&& answers.len() < queries ==> reached.phase is CheckingQuery
            &&& answers.len() == queries ==> reached.phase == (SearchPhase::Releasing {
                failure: None,
            })
            &&& start.run(events_through(answers)) == reached.going()
        }),
    decreases answers.len(),
{
    let start = SearchBatchView::initial(collection, config, queries, limit);
    let done = SearchEventView::Done;
    if answers.len() == 0 {
        let none = Seq::<Seq<SearchHitView>>::empty();
        assert(answer_hits(answers, limit) =~= none);
        assert(events_through(answers) =~= seq![done] + (seq![done] + seq![done]));
        let opening = start.at(SearchPhase::OpeningIndex);
        let ensuring = start.at(SearchPhase::EnsuringTable);
        lemma_run_concat(start, seq![done], seq![done] + seq![done]);
        lemma_run_one(start, done);
        lemma_run_concat(opening, seq![done], seq![done]);
        lemma_run_one(opening, done);
        lemma_run_one(ensuring, done);
        assert(ensuring.answered_with(none) == start.answered_with(none));
    } else {
        let before = answers.drop_last();
        let answer = answers.last();
        lemma_run_answers_in_order(collection, config, queries, limit, before);
        let asking = start.answered_with(answer_hits(before, limit));
        assert(events_through(answers) =~= events_through(before) + answer.events());
        lemma_run_concat(start, events_through(before), answer.events());
        lemma_query_hydrates(asking, answer);
        assert(answer_hits(before, limit).push(answer.hits(limit)) =~= answer_hits(
            answers,
            limit,
        ));
        assert(asking.answered_with(answer_hits(answers, limit)) == start.answered_with(
            answer_hits(answers, limit),
        ));
    }
}

/// A search whose every operation succeeds returns, for every query in
/// input order, the hits among its matches, once the collection is
/// released.
pub proof fn lemma_search_returns_hits(
    collection: Seq<char>,
    config: IndexConfig,
    queries: nat,
    limit: nat,
    answers: Seq<QueryAnswer>,
    released: SearchEventView,
)
    requires
        limit > 0,
        answers.len() == queries,
        forall|q: int| 0 <= q < answers.len() ==> (#[trigger] answers[q]).fits(limit),
    ensures
        SearchBatchView::initial(collection, config, queries, limit).run(
            events_through(answers).push(released),
        ) == (SearchProgressView::Finished { outcome: Ok(answer_hits(answers, limit)) }),
{
    let start = SearchBatchView::initial(collection, config, queries, limit);
    lemma_run_answers_in_order(collection, config, queries, limit, answers);
    let releasing = start.answered_with(answer_hits(answers, limit));
    assert(events_through(answers).push(released) =~= events_through(answers) + seq![released]);
    lemma_run_concat(start, events_through(answers), seq![released]);
    lemma_run_one(releasing, released);
}

/// With a limit of zero a search whose set-up succeeds ends with an empty
/// result for every query, and is no error.
pub proof fn lemma_zero_limit_finds_nothing(
    collection: Seq<char>,
    config: IndexConfig,
    queries: nat,
    released: SearchEventView,
)
    ensures
        SearchBatchView::initial(collection, config, queries, 0).run(
            seq![SearchEventView::Done, SearchEventView::Done, SearchEventView::Done].push(
                released,
            ),
        ) == (SearchProgressView::Finished { outcome: Ok(no_hits(queries)) }),
        forall|q: int| 0 <= q < queries ==> (#[trigger] no_hits(queries)[q]).len() == 0,
        no_hits(queries).len() == queries,
{
    let start = SearchBatchView::initial(collection, config, queries, 0);
    let done = SearchEventView::Done;
    let events = seq![done, done, done].push(released);
    assert(events =~= seq![done] + (seq![done] + (seq![done] + seq![released])));
    let opening = start.at(SearchPhase::OpeningIndex);
    let ensuring = start.at(SearchPhase::EnsuringTable);
    let releasing = ensuring.answered_with(no_hits(queries));
    lemma_run_concat(start, seq![done], seq![done] + (seq![done] + seq![released]));
    lemma_run_one(start, done);
    lemma_run_concat(opening, seq![done], seq![done] + seq![released]);
    lemma_run_one(opening, done);
    lemma_run_concat(ensuring, seq![done], seq![released]);
    lemma_run_one(ensuring, done);
    lemma_run_one(releasing, released);
}

/// A search in which the index finds nothing, as in a collection that was
/// never inserted into, ends with an empty result for every query, and is
/// no error.
pub proof fn lemma_empty_index_finds_nothing(
    collection: Seq<char>,
    config: IndexConfig,
    queries: nat,
    limit: nat,
    answers: Seq<QueryAnswer>,
    released: SearchEventView,
)
    requires
        limit > 0,
        answers.len() == queries,
        forall|q: int|
            0 <= q < answers.len() ==> (#[trigger] answers[q]).keys.len() == 0
                && answers[q].rows.len() == 0,
    ensures
        SearchBatchView::initial(collection, config, queries, limit).run(
            events_through(answers).push(released),
        ) == (SearchProgressView::Finished { outcome: Ok(no_hits(queries)) }),
{
    assert forall|q: int| 0 <= q < answers.len() implies (#[trigger] answers[q]).fits(limit) by {
        assert(answers[q].candidates(limit).len() == 0);
    }
    lemma_search_returns_hits(collection, config, queries, limit, answers, released);
    assert(answer_hits(answers, limit) =~= no_hits(queries)) by {
        assert forall|q: int| 0 <= q < answers.len() implies #[trigger] answer_hits(
            answers,
            limit,
        )[q] == Seq::<SearchHitView>::empty() by {
            assert(answers[q].hits(limit) =~= Seq::<SearchHitView>::empty());
        }
    }
}

} // verus!
