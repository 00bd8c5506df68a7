use memista::config::{IndexConfig, Metric};
use memista::error::{Fault, Mismatch, StoreError};
use memista::search::{SearchAction, SearchBatch, SearchEvent, SearchHit, SearchProgress};

fn config() -> IndexConfig {
    IndexConfig::new(2, Metric::InnerProduct, true)
}

/// Feeds `events` to a fresh search in "docs", granting the acquisition and
/// the release, and returns the operations between the two and, if the
/// search ended, its outcome.
fn drive(
    queries: usize,
    limit: usize,
    events: Vec<SearchEvent>,
) -> (Vec<SearchAction>, Option<Result<Vec<Vec<SearchHit>>, StoreError>>) {
    let (actions, outcome) = drive_all(queries, limit, events);
    assert_eq!(actions[0], SearchAction::Acquire { collection: "docs".to_string() });
    let release = SearchAction::Release { collection: "docs".to_string() };
    assert_eq!(outcome.is_some(), actions.last() == Some(&release));
    assert_eq!(actions.iter().filter(|a| matches!(a, SearchAction::Acquire { .. })).count(), 1);
    assert!(actions.iter().filter(|a| **a == release).count() <= 1);
    let between = actions.into_iter().skip(1).filter(|a| *a != release).collect();
    (between, outcome)
}

/// As `drive`, and returns every operation.
fn drive_all(
    queries: usize,
    limit: usize,
    events: Vec<SearchEvent>,
) -> (Vec<SearchAction>, Option<Result<Vec<Vec<SearchHit>>, StoreError>>) {
    let (mut machine, first) = SearchBatch::begin("docs".to_string(), config(), queries, limit);
    let mut actions = vec![first];
    let mut script = events.into_iter();
    loop {
        let event = match actions.last() {
            Some(SearchAction::Acquire { .. }) | Some(SearchAction::Release { .. }) => {
                SearchEvent::Done
            }
            _ => match script.next() {
                Some(event) => event,
                None => return (actions, None),
            },
        };
        match machine.step(event) {
            SearchProgress::Next { machine: next, action } => {
                machine = next;
                actions.push(action);
            }
            SearchProgress::Finished { outcome } => return (actions, Some(outcome)),
        }
    }
}

fn found(keys: Vec<u64>, scores: Vec<u32>) -> SearchEvent {
    SearchEvent::Matches { keys, scores }
}

fn text(text: &str) -> SearchEvent {
    SearchEvent::Row { text: text.to_string(), metadata: None }
}

fn hit(text: &str, score: u32) -> SearchHit {
    SearchHit { text: text.to_string(), metadata: None, score }
}

fn missing() -> SearchEvent {
    SearchEvent::Failed { fault: Fault::NotFound }
}

const SELECT: &str = "SELECT text, metadata FROM chunks_00006400006f000063000073 WHERE chunk_id = ?";

#[test]
fn search_issues_operations_in_protocol_order() {
    let (actions, outcome) = drive(
        2,
        3,
        vec![
            SearchEvent::Done,
            SearchEvent::Done,
            SearchEvent::Done, found(vec![2, 1], vec![90, 80]),
            text("b"),
            SearchEvent::Row { text: "a".to_string(), metadata: Some("m".to_string()) },
            SearchEvent::Done, found(vec![1], vec![70]),
            text("a"),
        ],
    );
    assert_eq!(
        outcome,
        Some(Ok(vec![
            vec![
                hit("b", 90),
                SearchHit { text: "a".to_string(), metadata: Some("m".to_string()), score: 80 }
            ],
            vec![hit("a", 70)],
        ]))
    );
    assert_eq!(
        actions,
        vec![
            SearchAction::OpenIndex {
                collection: "docs".to_string(),
                file: "00006400006f000063000073.usearch".to_string(),
                config: config(),
            },
            SearchAction::EnsureTable {
                statement: "CREATE TABLE IF NOT EXISTS chunks_00006400006f000063000073 (chunk_id INTEGER PRIMARY KEY AUTOINCREMENT, text TEXT, metadata TEXT)".to_string()
            },
            SearchAction::CheckQuery { query: 0 },
            SearchAction::Query { query: 0, count: 3 },
            SearchAction::ReadRow { statement: SELECT.to_string(), chunk_id: 2 },
            SearchAction::ReadRow { statement: SELECT.to_string(), chunk_id: 1 },
            SearchAction::CheckQuery { query: 1 },
            SearchAction::Query { query: 1, count: 3 },
            SearchAction::ReadRow { statement: SELECT.to_string(), chunk_id: 1 },
        ]
    );
}

#[test]
fn search_with_limit_zero_asks_no_query() {
    let (actions, outcome) = drive(3, 0, vec![SearchEvent::Done, SearchEvent::Done]);
    assert_eq!(outcome, Some(Ok(vec![vec![], vec![], vec![]])));
    assert_eq!(actions.len(), 2);
}

#[test]
fn search_without_queries_returns_no_results() {
    let (actions, outcome) = drive(0, 5, vec![SearchEvent::Done, SearchEvent::Done]);
    assert_eq!(outcome, Some(Ok(vec![])));
    assert_eq!(actions.len(), 2);
}

#[test]
fn search_in_empty_index_returns_empty_results() {
    let (actions, outcome) = drive(
        2,
        4,
        vec![SearchEvent::Done, SearchEvent::Done, SearchEvent::Done, found(vec![], vec![]), SearchEvent::Done, found(vec![], vec![])],
    );
    assert_eq!(outcome, Some(Ok(vec![vec![], vec![]])));
    assert_eq!(
        &actions[2..],
        &[
            SearchAction::CheckQuery { query: 0 },
            SearchAction::Query { query: 0, count: 4 },
            SearchAction::CheckQuery { query: 1 },
            SearchAction::Query { query: 1, count: 4 }
        ]
    );
}

#[test]
fn missing_row_is_left_out_and_order_is_kept() {
    let (_, outcome) = drive(
        1,
        5,
        vec![
            SearchEvent::Done,
            SearchEvent::Done,
            SearchEvent::Done, found(vec![5, 6, 7, 8], vec![4, 3, 2, 1]),
            text("five"),
            missing(),
            text("seven"),
            missing(),
        ],
    );
    assert_eq!(outcome, Some(Ok(vec![vec![hit("five", 4), hit("seven", 2)]])));
}

#[test]
fn query_whose_rows_are_all_missing_has_an_empty_result() {
    let (_, outcome) = drive(
        2,
        5,
        vec![
            SearchEvent::Done,
            SearchEvent::Done,
            SearchEvent::Done, found(vec![5, 6], vec![4, 3]),
            missing(),
            missing(),
            SearchEvent::Done, found(vec![5], vec![9]),
            text("five"),
        ],
    );
    assert_eq!(outcome, Some(Ok(vec![vec![], vec![hit("five", 9)]])));
}

#[test]
fn matches_beyond_the_limit_are_not_read() {
    let (actions, outcome) = drive(
        1,
        2,
        vec![
            SearchEvent::Done,
            SearchEvent::Done,
            SearchEvent::Done, found(vec![5, 6, 7], vec![30, 20, 10]),
            text("five"),
            text("six"),
        ],
    );
    assert_eq!(outcome, Some(Ok(vec![vec![hit("five", 30), hit("six", 20)]])));
    assert_eq!(actions.iter().filter(|a| matches!(a, SearchAction::ReadRow { .. })).count(), 2);
}

#[test]
fn keys_without_score_are_not_read() {
    let (_, outcome) = drive(
        1,
        5,
        vec![SearchEvent::Done, SearchEvent::Done, SearchEvent::Done, found(vec![5, 6, 7], vec![30]), text("five")],
    );
    assert_eq!(outcome, Some(Ok(vec![vec![hit("five", 30)]])));
}

#[test]
fn row_is_read_under_the_id_the_key_stands_for() {
    let (actions, _) = drive(
        1,
        5,
        vec![SearchEvent::Done, SearchEvent::Done, SearchEvent::Done, found(vec![u64::MAX], vec![1])],
    );
    assert_eq!(
        actions.last(),
        Some(&SearchAction::ReadRow { statement: SELECT.to_string(), chunk_id: -1 })
    );
}

#[test]
fn failure_to_open_ends_the_search() {
    let (actions, outcome) =
        drive(1, 5, vec![SearchEvent::Failed { fault: Fault::ConfigMismatch(Mismatch::Dimension) }]);
    assert_eq!(outcome, Some(Err(StoreError::ConfigMismatch(Mismatch::Dimension))));
    assert_eq!(actions.len(), 1);
}

#[test]
fn query_that_is_refused_is_not_run() {
    let (actions, outcome) = drive(
        2,
        5,
        vec![
            SearchEvent::Done,
            SearchEvent::Done,
            SearchEvent::Failed { fault: Fault::ConfigMismatch(Mismatch::Dimension) },
        ],
    );
    assert_eq!(outcome, Some(Err(StoreError::ConfigMismatch(Mismatch::Dimension))));
    assert_eq!(actions.last(), Some(&SearchAction::CheckQuery { query: 0 }));
    assert!(!actions.iter().any(|a| matches!(a, SearchAction::Query { .. })));
}

#[test]
fn failure_of_a_query_ends_the_search() {
    let (_, outcome) = drive(
        2,
        5,
        vec![
            SearchEvent::Done,
            SearchEvent::Done,
            SearchEvent::Done, found(vec![1], vec![1]),
            text("a"),
            SearchEvent::Failed { fault: Fault::ConfigMismatch(Mismatch::Dimension) },
        ],
    );
    assert_eq!(outcome, Some(Err(StoreError::ConfigMismatch(Mismatch::Dimension))));
}

#[test]
fn storage_fault_while_reading_a_row_ends_the_search() {
    let (_, outcome) = drive(
        1,
        5,
        vec![
            SearchEvent::Done,
            SearchEvent::Done,
            SearchEvent::Done, found(vec![1, 2], vec![2, 1]),
            text("a"),
            SearchEvent::Failed { fault: Fault::StorageIO },
        ],
    );
    assert_eq!(outcome, Some(Err(StoreError::StorageIO)));
}

#[test]
fn not_found_outside_a_row_read_ends_the_search() {
    let (_, outcome) = drive(1, 5, vec![SearchEvent::Done, missing()]);
    assert_eq!(outcome, Some(Err(StoreError::NotFound)));
}

#[test]
fn search_event_that_is_no_answer_counts_as_storage_fault() {
    let (_, outcome) = drive(1, 5, vec![text("a")]);
    assert_eq!(outcome, Some(Err(StoreError::StorageIO)));
    let (_, outcome) = drive(1, 5, vec![SearchEvent::Done, SearchEvent::Done, text("a")]);
    assert_eq!(outcome, Some(Err(StoreError::StorageIO)));
    let (_, outcome) = drive(
        1,
        5,
        vec![SearchEvent::Done, SearchEvent::Done, SearchEvent::Done, SearchEvent::Done],
    );
    assert_eq!(outcome, Some(Err(StoreError::StorageIO)));
    let (_, outcome) = drive(
        1,
        5,
        vec![
            SearchEvent::Done,
            SearchEvent::Done,
            SearchEvent::Done,
            found(vec![1], vec![1]),
            found(vec![1], vec![1]),
        ],
    );
    assert_eq!(outcome, Some(Err(StoreError::StorageIO)));
}

#[test]
fn search_acquires_first_and_releases_last() {
    let (actions, outcome) = drive_all(
        1,
        1,
        vec![SearchEvent::Done, SearchEvent::Done, SearchEvent::Done, found(vec![1], vec![7]), text("a")],
    );
    assert_eq!(outcome, Some(Ok(vec![vec![hit("a", 7)]])));
    assert_eq!(actions.len(), 7);
    assert_eq!(actions[0], SearchAction::Acquire { collection: "docs".to_string() });
    assert_eq!(actions[6], SearchAction::Release { collection: "docs".to_string() });
}

#[test]
fn search_that_cannot_acquire_ends_without_release() {
    let (machine, first) = SearchBatch::begin("docs".to_string(), config(), 1, 1);
    assert_eq!(first, SearchAction::Acquire { collection: "docs".to_string() });
    match machine.step(SearchEvent::Failed { fault: Fault::StorageIO }) {
        SearchProgress::Finished { outcome } => assert_eq!(outcome, Err(StoreError::StorageIO)),
        SearchProgress::Next { .. } => panic!("the search went on without the collection"),
    }
}

#[test]
fn search_releases_after_every_failure() {
    let script = || vec![SearchEvent::Done, SearchEvent::Done, SearchEvent::Done, found(vec![1, 2], vec![7, 6]), text("a")];
    for failing in 0..=script().len() {
        let mut events: Vec<SearchEvent> = script().into_iter().take(failing).collect();
        events.push(SearchEvent::Failed { fault: Fault::StorageIO });
        let (actions, outcome) = drive_all(1, 2, events);
        assert_eq!(outcome, Some(Err(StoreError::StorageIO)));
        assert_eq!(actions.len(), failing + 3);
        assert_eq!(
            actions.last(),
            Some(&SearchAction::Release { collection: "docs".to_string() })
        );
    }
}

#[test]
fn search_outcome_does_not_depend_on_what_became_of_the_release() {
    for answer in [SearchEvent::Done, SearchEvent::Failed { fault: Fault::StorageIO }, text("x")] {
        let (mut machine, _) = SearchBatch::begin("docs".to_string(), config(), 2, 0);
        for _ in 0..3 {
            machine = match machine.step(SearchEvent::Done) {
                SearchProgress::Next { machine, .. } => machine,
                SearchProgress::Finished { .. } => panic!("the search ended early"),
            };
        }
        assert_eq!(machine.pending(), SearchAction::Release { collection: "docs".to_string() });
        match machine.step(answer) {
            SearchProgress::Finished { outcome } => assert_eq!(outcome, Ok(vec![vec![], vec![]])),
            SearchProgress::Next { .. } => panic!("the search went on after the release"),
        }
    }
}

#[test]
fn abandoned_search_releases_what_it_holds() {
    let (machine, _) = SearchBatch::begin("docs".to_string(), config(), 1, 1);
    assert_eq!(machine.abandon(), None);
    let (mut machine, _) = SearchBatch::begin("docs".to_string(), config(), 1, 2);
    for event in [SearchEvent::Done, SearchEvent::Done, SearchEvent::Done, SearchEvent::Done, found(vec![1, 2], vec![7, 6])] {
        machine = match machine.step(event) {
            SearchProgress::Next { machine, .. } => machine,
            SearchProgress::Finished { .. } => panic!("the search ended early"),
        };
    }
    assert_eq!(machine.abandon(), Some(SearchAction::Release { collection: "docs".to_string() }));
}

#[test]
fn search_pending_repeats_the_operation_in_flight() {
    let (machine, first) = SearchBatch::begin("docs".to_string(), config(), 1, 1);
    assert_eq!(machine.pending(), first);
    match machine.step(SearchEvent::Done) {
        SearchProgress::Next { machine, action } => assert_eq!(machine.pending(), action),
        SearchProgress::Finished { .. } => panic!("the search ended after one step"),
    }
}
