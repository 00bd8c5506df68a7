use memista::config::{IndexConfig, Metric};
use memista::error::{Fault, Mismatch, StoreError};
use memista::insert::{Chunk, InsertAction, InsertBatch, InsertEvent, InsertProgress};

fn chunk(text: &str) -> Chunk {
    Chunk { explicit_id: None, text: text.to_string(), metadata: None }
}

fn config() -> IndexConfig {
    IndexConfig::new(2, Metric::InnerProduct, true)
}

/// Feeds `events` to a fresh insert of `chunks` into "docs", granting the
/// acquisition and the release, and returns the operations between the two
/// and, if the insert ended, its outcome.
fn drive(
    chunks: Vec<Chunk>,
    events: Vec<InsertEvent>,
) -> (Vec<InsertAction>, Option<Result<Vec<i64>, StoreError>>) {
    let (actions, outcome) = drive_all(chunks, events);
    assert_eq!(actions[0], InsertAction::Acquire { collection: "docs".to_string() });
    let release = InsertAction::Release { collection: "docs".to_string() };
    assert_eq!(outcome.is_some(), actions.last() == Some(&release));
    assert_eq!(actions.iter().filter(|a| matches!(a, InsertAction::Acquire { .. })).count(), 1);
    let between = actions.into_iter().skip(1).filter(|a| *a != release).collect();
    (between, outcome)
}

/// As `drive`, and returns every operation.
fn drive_all(
    chunks: Vec<Chunk>,
    events: Vec<InsertEvent>,
) -> (Vec<InsertAction>, Option<Result<Vec<i64>, StoreError>>) {
    let (mut machine, first) = InsertBatch::begin("docs".to_string(), config(), chunks);
    let mut actions = vec![first];
    let mut script = events.into_iter();
    loop {
        let event = match actions.last() {
            Some(InsertAction::Acquire { .. }) | Some(InsertAction::Release { .. }) => {
                InsertEvent::Done
            }
            _ => match script.next() {
                Some(event) => event,
                None => return (actions, None),
            },
        };
        match machine.step(event) {
            InsertProgress::Next { machine: next, action } => {
                machine = next;
                actions.push(action);
            }
            InsertProgress::Finished { outcome } => return (actions, Some(outcome)),
        }
    }
}

fn row(row_id: i64) -> InsertEvent {
    InsertEvent::RowInserted { row_id }
}

/// The set-up succeeds, then each id is returned for a row whose vector
/// passes its check and is added, then `last` follow.
fn script(ids: &[i64], last: Vec<InsertEvent>) -> Vec<InsertEvent> {
    let mut events = vec![InsertEvent::Done, InsertEvent::Done, InsertEvent::Done];
    for id in ids {
        events.extend([row(*id), InsertEvent::Done, InsertEvent::Done]);
    }
    events.extend(last);
    events
}

fn failed(fault: Fault) -> InsertEvent {
    InsertEvent::Failed { fault }
}

#[test]
fn insert_issues_operations_in_protocol_order() {
    let (actions, outcome) = drive(
        vec![chunk("a"), Chunk { explicit_id: None, text: "b".to_string(), metadata: Some("m".to_string()) }],
        script(&[1, 2], vec![InsertEvent::Done]),
    );
    assert_eq!(outcome, Some(Ok(vec![1, 2])));
    assert_eq!(
        actions,
        vec![
            InsertAction::EnsureTable {
                statement: "CREATE TABLE IF NOT EXISTS chunks_00006400006f000063000073 (chunk_id INTEGER PRIMARY KEY AUTOINCREMENT, text TEXT, metadata TEXT)".to_string()
            },
            InsertAction::OpenIndex {
                collection: "docs".to_string(),
                file: "00006400006f000063000073.usearch".to_string(),
                config: config(),
            },
            InsertAction::Reserve { additional: 2 },
            InsertAction::InsertRow {
                chunk: 0,
                statement: "INSERT INTO chunks_00006400006f000063000073 (text, metadata) VALUES (?, ?) RETURNING chunk_id".to_string(),
                explicit_id: None,
                text: "a".to_string(),
                metadata: None,
            },
            InsertAction::CheckVector { chunk: 0, key: 1 },
            InsertAction::AddVector { chunk: 0, key: 1 },
            InsertAction::InsertRow {
                chunk: 1,
                statement: "INSERT INTO chunks_00006400006f000063000073 (text, metadata) VALUES (?, ?) RETURNING chunk_id".to_string(),
                explicit_id: None,
                text: "b".to_string(),
                metadata: Some("m".to_string()),
            },
            InsertAction::CheckVector { chunk: 1, key: 2 },
            InsertAction::AddVector { chunk: 1, key: 2 },
            InsertAction::SaveIndex { file: "00006400006f000063000073.usearch".to_string() },
        ]
    );
}

#[test]
fn insert_returns_ids_in_input_order_not_sorted() {
    let (_, outcome) = drive(
        vec![chunk("a"), chunk("b"), chunk("c")],
        script(&[30, 10, 20], vec![InsertEvent::Done]),
    );
    assert_eq!(outcome, Some(Ok(vec![30, 10, 20])));
}

#[test]
fn insert_of_empty_batch_sets_up_and_saves() {
    let (actions, outcome) = drive(vec![], script(&[], vec![InsertEvent::Done]));
    assert_eq!(outcome, Some(Ok(vec![])));
    assert_eq!(actions.len(), 4);
    assert_eq!(actions[2], InsertAction::Reserve { additional: 0 });
    assert_eq!(actions[3], InsertAction::SaveIndex { file: "00006400006f000063000073.usearch".to_string() });
}

#[test]
fn insert_is_not_over_before_the_save_is_answered() {
    let (actions, outcome) = drive(vec![chunk("a")], script(&[1], vec![]));
    assert_eq!(outcome, None);
    assert_eq!(actions.last(), Some(&InsertAction::SaveIndex { file: "00006400006f000063000073.usearch".to_string() }));
}

#[test]
fn vector_key_stands_for_a_negative_row_id() {
    let (actions, _) = drive(vec![chunk("a")], script(&[], vec![row(-1), InsertEvent::Done]));
    let n = actions.len();
    assert_eq!(actions[n - 2], InsertAction::CheckVector { chunk: 0, key: u64::MAX });
    assert_eq!(actions[n - 1], InsertAction::AddVector { chunk: 0, key: u64::MAX });
}

#[test]
fn explicit_id_selects_the_replacing_statement() {
    let (actions, outcome) = drive(
        vec![Chunk { explicit_id: Some(42), text: "a".to_string(), metadata: None }],
        script(&[42], vec![InsertEvent::Done]),
    );
    assert_eq!(outcome, Some(Ok(vec![42])));
    assert_eq!(
        actions[3],
        InsertAction::InsertRow {
            chunk: 0,
            statement: "INSERT OR REPLACE INTO chunks_00006400006f000063000073 (chunk_id, text, metadata) VALUES (?, ?, ?) RETURNING chunk_id".to_string(),
            explicit_id: Some(42),
            text: "a".to_string(),
            metadata: None,
        }
    );
    assert_eq!(actions[4], InsertAction::CheckVector { chunk: 0, key: 42 });
    assert_eq!(actions[5], InsertAction::AddVector { chunk: 0, key: 42 });
}

#[test]
fn row_id_other_than_the_explicit_one_is_a_storage_fault() {
    let (actions, outcome) = drive(
        vec![Chunk { explicit_id: Some(42), text: "a".to_string(), metadata: None }],
        script(&[], vec![row(43)]),
    );
    assert_eq!(
        outcome,
        Some(Err(StoreError::PartialBatchFailure {
            failed_index: 0,
            committed: vec![],
            cause: Fault::StorageIO
        }))
    );
    assert_eq!(actions.len(), 4);
}

#[test]
fn failure_of_table_set_up_is_surfaced_as_it_is() {
    let (actions, outcome) = drive(vec![chunk("a")], vec![failed(Fault::StorageIO)]);
    assert_eq!(outcome, Some(Err(StoreError::StorageIO)));
    assert_eq!(actions.len(), 1);
}

#[test]
fn configuration_mismatch_on_open_is_surfaced_as_it_is() {
    let (actions, outcome) = drive(
        vec![chunk("a")],
        vec![InsertEvent::Done, failed(Fault::ConfigMismatch(Mismatch::Metric))],
    );
    assert_eq!(outcome, Some(Err(StoreError::ConfigMismatch(Mismatch::Metric))));
    assert_eq!(actions.len(), 2);
}

#[test]
fn failure_of_reserve_is_surfaced_as_it_is() {
    let (_, outcome) =
        drive(vec![chunk("a")], vec![InsertEvent::Done, InsertEvent::Done, failed(Fault::StorageIO)]);
    assert_eq!(outcome, Some(Err(StoreError::StorageIO)));
}

#[test]
fn failure_at_a_row_reports_the_committed_prefix() {
    let (actions, outcome) = drive(
        vec![chunk("a"), chunk("b"), chunk("c")],
        script(&[1], vec![failed(Fault::StorageIO)]),
    );
    assert_eq!(
        outcome,
        Some(Err(StoreError::PartialBatchFailure {
            failed_index: 1,
            committed: vec![1],
            cause: Fault::StorageIO
        }))
    );
    assert!(!actions.iter().any(|a| matches!(a, InsertAction::SaveIndex { .. })));
}

#[test]
fn vector_of_wrong_length_is_not_added() {
    let (actions, outcome) = drive(
        vec![chunk("a"), chunk("b")],
        script(&[1], vec![row(2), failed(Fault::ConfigMismatch(Mismatch::Dimension))]),
    );
    assert_eq!(
        outcome,
        Some(Err(StoreError::PartialBatchFailure {
            failed_index: 1,
            committed: vec![1],
            cause: Fault::ConfigMismatch(Mismatch::Dimension)
        }))
    );
    assert_eq!(actions.iter().filter(|a| matches!(a, InsertAction::CheckVector { .. })).count(), 2);
    assert_eq!(actions.iter().filter(|a| matches!(a, InsertAction::AddVector { .. })).count(), 1);
    assert_eq!(actions.last(), Some(&InsertAction::CheckVector { chunk: 1, key: 2 }));
}

#[test]
fn duplicate_key_at_first_vector_reports_nothing_committed() {
    let (actions, outcome) =
        drive(vec![chunk("a")], script(&[], vec![row(1), failed(Fault::DuplicateKey)]));
    assert_eq!(
        outcome,
        Some(Err(StoreError::PartialBatchFailure {
            failed_index: 0,
            committed: vec![],
            cause: Fault::DuplicateKey
        }))
    );
    assert!(!actions.iter().any(|a| matches!(a, InsertAction::AddVector { .. })));
}

#[test]
fn failure_of_the_addition_reports_the_committed_prefix() {
    let (_, outcome) = drive(
        vec![chunk("a"), chunk("b")],
        script(&[1], vec![row(2), InsertEvent::Done, failed(Fault::StorageIO)]),
    );
    assert_eq!(
        outcome,
        Some(Err(StoreError::PartialBatchFailure {
            failed_index: 1,
            committed: vec![1],
            cause: Fault::StorageIO
        }))
    );
}

#[test]
fn failure_of_save_reports_every_chunk_committed() {
    let (_, outcome) =
        drive(vec![chunk("a"), chunk("b")], script(&[1, 2], vec![failed(Fault::StorageIO)]));
    assert_eq!(
        outcome,
        Some(Err(StoreError::PartialBatchFailure {
            failed_index: 2,
            committed: vec![1, 2],
            cause: Fault::StorageIO
        }))
    );
}

#[test]
fn event_that_is_no_answer_counts_as_storage_fault() {
    let (_, outcome) = drive(vec![chunk("a")], vec![row(1)]);
    assert_eq!(outcome, Some(Err(StoreError::StorageIO)));
    let (_, outcome) = drive(vec![chunk("a")], vec![InsertEvent::Done, row(1)]);
    assert_eq!(outcome, Some(Err(StoreError::StorageIO)));
    let nothing_committed = Some(Err(StoreError::PartialBatchFailure {
        failed_index: 0,
        committed: vec![],
        cause: Fault::StorageIO,
    }));
    let (_, outcome) = drive(vec![chunk("a")], script(&[], vec![InsertEvent::Done]));
    assert_eq!(outcome, nothing_committed);
    let (_, outcome) = drive(vec![chunk("a")], script(&[], vec![row(1), row(2)]));
    assert_eq!(outcome, nothing_committed);
    let (_, outcome) = drive(vec![chunk("a")], script(&[], vec![row(1), InsertEvent::Done, row(2)]));
    assert_eq!(outcome, nothing_committed);
}

#[test]
fn insert_acquires_first_and_releases_last() {
    let (actions, outcome) = drive_all(vec![chunk("a")], script(&[1], vec![InsertEvent::Done]));
    assert_eq!(outcome, Some(Ok(vec![1])));
    assert_eq!(actions.len(), 9);
    assert_eq!(actions[0], InsertAction::Acquire { collection: "docs".to_string() });
    assert_eq!(actions[8], InsertAction::Release { collection: "docs".to_string() });
    assert_eq!(actions[7], InsertAction::SaveIndex { file: "00006400006f000063000073.usearch".to_string() });
}

#[test]
fn insert_that_cannot_acquire_ends_without_release() {
    let (machine, first) = InsertBatch::begin("docs".to_string(), config(), vec![chunk("a")]);
    assert_eq!(first, InsertAction::Acquire { collection: "docs".to_string() });
    match machine.step(failed(Fault::StorageIO)) {
        InsertProgress::Finished { outcome } => assert_eq!(outcome, Err(StoreError::StorageIO)),
        InsertProgress::Next { .. } => panic!("the insert went on without the collection"),
    }
    let (machine, _) = InsertBatch::begin("docs".to_string(), config(), vec![chunk("a")]);
    match machine.step(row(1)) {
        InsertProgress::Finished { outcome } => assert_eq!(outcome, Err(StoreError::StorageIO)),
        InsertProgress::Next { .. } => panic!("the insert went on without the collection"),
    }
}

#[test]
fn insert_releases_after_every_failure() {
    let whole = script(&[1], vec![InsertEvent::Done]);
    for failing in 0..whole.len() {
        let mut events: Vec<InsertEvent> = whole[..failing].to_vec();
        events.push(failed(Fault::StorageIO));
        let (actions, outcome) = drive_all(vec![chunk("a")], events);
        assert!(matches!(outcome, Some(Err(_))));
        assert_eq!(actions.len(), failing + 3);
        assert_eq!(
            actions.last(),
            Some(&InsertAction::Release { collection: "docs".to_string() })
        );
        let releases =
            actions.iter().filter(|a| matches!(a, InsertAction::Release { .. })).count();
        assert_eq!(releases, 1);
    }
}

#[test]
fn outcome_does_not_depend_on_what_became_of_the_release() {
    for answer in [InsertEvent::Done, failed(Fault::StorageIO), row(9)] {
        let (mut machine, _) = InsertBatch::begin("docs".to_string(), config(), vec![]);
        for _ in 0..5 {
            machine = match machine.step(InsertEvent::Done) {
                InsertProgress::Next { machine, .. } => machine,
                InsertProgress::Finished { .. } => panic!("the insert ended early"),
            };
        }
        assert_eq!(machine.pending(), InsertAction::Release { collection: "docs".to_string() });
        match machine.step(answer) {
            InsertProgress::Finished { outcome } => assert_eq!(outcome, Ok(vec![])),
            InsertProgress::Next { .. } => panic!("the insert went on after the release"),
        }
    }
}

#[test]
fn abandoned_insert_releases_what_it_holds() {
    let mut whole = vec![InsertEvent::Done];
    whole.extend(script(&[1], vec![InsertEvent::Done]));
    for answered in 0..=whole.len() {
        let (mut machine, _) = InsertBatch::begin("docs".to_string(), config(), vec![chunk("a")]);
        for event in &whole[..answered] {
            machine = match machine.step(*event) {
                InsertProgress::Next { machine, .. } => machine,
                InsertProgress::Finished { .. } => panic!("the insert ended early"),
            };
        }
        let left = machine.abandon();
        if answered == 0 {
            assert_eq!(left, None);
        } else {
            assert_eq!(left, Some(InsertAction::Release { collection: "docs".to_string() }));
        }
    }
}

#[test]
fn pending_repeats_the_operation_in_flight() {
    let (machine, first) = InsertBatch::begin("docs".to_string(), config(), vec![chunk("a")]);
    assert_eq!(machine.pending(), first);
    assert_eq!(machine.committed(), &Vec::<i64>::new());
    match machine.step(InsertEvent::Done) {
        InsertProgress::Next { machine, action } => assert_eq!(machine.pending(), action),
        InsertProgress::Finished { .. } => panic!("the insert ended after one step"),
    }
}

#[test]
fn committed_grows_only_when_the_vector_is_added() {
    let (mut machine, _) =
        InsertBatch::begin("docs".to_string(), config(), vec![chunk("a"), chunk("b")]);
    let mut seen = Vec::new();
    let mut events = vec![InsertEvent::Done];
    events.extend(script(&[5], vec![row(6), InsertEvent::Done]));
    for event in events {
        match machine.step(event) {
            InsertProgress::Next { machine: next, .. } => {
                seen.push(next.committed().clone());
                machine = next;
            }
            InsertProgress::Finished { .. } => panic!("the insert ended early"),
        }
    }
    assert_eq!(
        seen,
        vec![vec![], vec![], vec![], vec![], vec![], vec![], vec![5], vec![5], vec![5]]
    );
}
