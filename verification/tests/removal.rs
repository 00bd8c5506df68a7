use memista::error::{Fault, StoreError};
use memista::removal::{DropAction, DropCollection, DropEvent, DropProgress};

fn drive(events: Vec<DropEvent>) -> (Vec<DropAction>, Option<Result<(), StoreError>>) {
    let (mut machine, first) = DropCollection::begin("docs".to_string());
    let mut actions = vec![first];
    for event in events {
        match machine.step(event) {
            DropProgress::Next { machine: next, action } => {
                machine = next;
                actions.push(action);
            }
            DropProgress::Finished { outcome } => return (actions, Some(outcome)),
        }
    }
    (actions, None)
}

fn acquire() -> DropAction {
    DropAction::Acquire { collection: "docs".to_string() }
}

fn release() -> DropAction {
    DropAction::Release { collection: "docs".to_string() }
}

fn close_index() -> DropAction {
    DropAction::CloseIndex { collection: "docs".to_string() }
}

fn drop_table() -> DropAction {
    DropAction::DropTable { statement: "DROP TABLE IF EXISTS chunks_00006400006f000063000073".to_string() }
}

fn probe_snapshot() -> DropAction {
    DropAction::ProbeSnapshot { file: "00006400006f000063000073.usearch".to_string() }
}

fn remove_snapshot() -> DropAction {
    DropAction::RemoveSnapshot { file: "00006400006f000063000073.usearch".to_string() }
}

fn failed() -> DropEvent {
    DropEvent::Failed { fault: Fault::StorageIO }
}

#[test]
fn drop_closes_the_index_then_removes_table_then_snapshot() {
    let (actions, outcome) = drive(vec![DropEvent::Done; 6]);
    assert_eq!(outcome, Some(Ok(())));
    assert_eq!(
        actions,
        vec![
            acquire(),
            close_index(),
            drop_table(),
            probe_snapshot(),
            remove_snapshot(),
            release()
        ]
    );
}

#[test]
fn drop_does_not_delete_a_snapshot_that_does_not_exist() {
    let (actions, outcome) = drive(vec![
        DropEvent::Done,
        DropEvent::Done,
        DropEvent::Done,
        DropEvent::Absent,
        DropEvent::Done,
    ]);
    assert_eq!(outcome, Some(Ok(())));
    assert_eq!(
        actions,
        vec![acquire(), close_index(), drop_table(), probe_snapshot(), release()]
    );
}

#[test]
fn drop_keeps_table_and_snapshot_when_the_index_cannot_be_closed() {
    let (actions, outcome) = drive(vec![DropEvent::Done, failed(), DropEvent::Done]);
    assert_eq!(outcome, Some(Err(StoreError::StorageIO)));
    assert_eq!(actions, vec![acquire(), close_index(), release()]);
}

#[test]
fn drop_keeps_the_snapshot_when_the_table_cannot_be_dropped() {
    let (actions, outcome) =
        drive(vec![DropEvent::Done, DropEvent::Done, failed(), DropEvent::Done]);
    assert_eq!(outcome, Some(Err(StoreError::StorageIO)));
    assert_eq!(actions, vec![acquire(), close_index(), drop_table(), release()]);
}

#[test]
fn drop_reports_a_snapshot_that_cannot_be_removed() {
    let (actions, outcome) = drive(vec![
        DropEvent::Done,
        DropEvent::Done,
        DropEvent::Done,
        DropEvent::Done,
        DropEvent::Failed { fault: Fault::NotFound },
        DropEvent::Done,
    ]);
    assert_eq!(outcome, Some(Err(StoreError::NotFound)));
    assert_eq!(
        actions,
        vec![
            acquire(),
            close_index(),
            drop_table(),
            probe_snapshot(),
            remove_snapshot(),
            release()
        ]
    );
}

#[test]
fn drop_event_that_is_no_answer_counts_as_storage_fault() {
    let (actions, outcome) = drive(vec![DropEvent::Absent]);
    assert_eq!(outcome, Some(Err(StoreError::StorageIO)));
    assert_eq!(actions, vec![acquire()]);
    let (actions, outcome) = drive(vec![DropEvent::Done, DropEvent::Absent, DropEvent::Done]);
    assert_eq!(outcome, Some(Err(StoreError::StorageIO)));
    assert_eq!(actions, vec![acquire(), close_index(), release()]);
    let (_, outcome) = drive(vec![
        DropEvent::Done,
        DropEvent::Done,
        DropEvent::Done,
        DropEvent::Done,
        DropEvent::Absent,
        DropEvent::Done,
    ]);
    assert_eq!(outcome, Some(Err(StoreError::StorageIO)));
}

#[test]
fn drop_that_cannot_acquire_ends_without_release() {
    let (actions, outcome) = drive(vec![failed()]);
    assert_eq!(outcome, Some(Err(StoreError::StorageIO)));
    assert_eq!(actions, vec![acquire()]);
}

#[test]
fn drop_is_not_over_before_the_release_is_answered() {
    let (actions, outcome) = drive(vec![DropEvent::Done; 5]);
    assert_eq!(outcome, None);
    assert_eq!(actions.last(), Some(&release()));
    let (_, outcome) = drive(vec![DropEvent::Done; 4]);
    assert_eq!(outcome, None);
}

#[test]
fn drop_outcome_does_not_depend_on_what_became_of_the_release() {
    let (_, outcome) = drive(vec![
        DropEvent::Done,
        DropEvent::Done,
        DropEvent::Done,
        DropEvent::Done,
        DropEvent::Done,
        failed(),
    ]);
    assert_eq!(outcome, Some(Ok(())));
    let (_, outcome) = drive(vec![
        DropEvent::Done,
        DropEvent::Done,
        DropEvent::Done,
        DropEvent::Absent,
        DropEvent::Absent,
    ]);
    assert_eq!(outcome, Some(Ok(())));
    let (_, outcome) = drive(vec![DropEvent::Done, failed(), failed()]);
    assert_eq!(outcome, Some(Err(StoreError::StorageIO)));
}

#[test]
fn abandoned_drop_releases_what_it_holds() {
    let (machine, _) = DropCollection::begin("docs".to_string());
    assert_eq!(machine.abandon(), None);
    for answered in 1..=5 {
        let (mut machine, _) = DropCollection::begin("docs".to_string());
        for _ in 0..answered {
            machine = match machine.step(DropEvent::Done) {
                DropProgress::Next { machine, .. } => machine,
                DropProgress::Finished { .. } => panic!("the drop ended early"),
            };
        }
        assert_eq!(machine.abandon(), Some(release()));
    }
}

#[test]
fn drop_pending_repeats_the_operation_in_flight() {
    let (machine, first) = DropCollection::begin("docs".to_string());
    assert_eq!(machine.pending(), first);
    assert_eq!(first, acquire());
}
