use memista::locks::{Holders, LockTable};

fn free() -> Holders {
    Holders { readers: 0, writer: false }
}

#[test]
fn nothing_is_held_at_first() {
    let table = LockTable::new();
    assert_eq!(table.holders("docs"), free());
}

#[test]
fn writer_excludes_writers_and_readers() {
    let mut table = LockTable::new();
    assert!(table.try_write("docs"));
    assert_eq!(table.holders("docs"), Holders { readers: 0, writer: true });
    assert!(!table.try_write("docs"));
    assert!(!table.try_read("docs"));
    assert_eq!(table.holders("docs"), Holders { readers: 0, writer: true });
    table.release_write("docs");
    assert_eq!(table.holders("docs"), free());
    assert!(table.try_read("docs"));
}

#[test]
fn readers_share_and_exclude_writers() {
    let mut table = LockTable::new();
    assert!(table.try_read("docs"));
    assert!(table.try_read("docs"));
    assert!(table.try_read("docs"));
    assert_eq!(table.holders("docs"), Holders { readers: 3, writer: false });
    assert!(!table.try_write("docs"));
    table.release_read("docs");
    table.release_read("docs");
    assert!(!table.try_write("docs"));
    table.release_read("docs");
    assert_eq!(table.holders("docs"), free());
    assert!(table.try_write("docs"));
}

#[test]
fn collections_do_not_wait_for_each_other() {
    let mut table = LockTable::new();
    let ids: Vec<String> = (0..20).map(|i| format!("collection{}", i)).collect();
    for id in &ids {
        assert!(table.try_write(id));
    }
    for id in &ids {
        assert!(!table.try_write(id));
        assert_eq!(table.holders(id), Holders { readers: 0, writer: true });
    }
    table.release_write(&ids[3]);
    assert!(table.try_read(&ids[3]));
    for (i, id) in ids.iter().enumerate() {
        if i != 3 {
            assert_eq!(table.holders(id), Holders { readers: 0, writer: true });
        }
    }
}

#[test]
fn release_without_holder_changes_nothing() {
    let mut table = LockTable::new();
    table.release_read("docs");
    table.release_write("docs");
    assert_eq!(table.holders("docs"), free());
    assert!(table.try_read("docs"));
    table.release_write("docs");
    assert_eq!(table.holders("docs"), Holders { readers: 1, writer: false });
    table.release_read("docs");
    table.release_read("docs");
    assert_eq!(table.holders("docs"), free());
    assert!(table.try_write("docs"));
    table.release_read("docs");
    assert_eq!(table.holders("docs"), Holders { readers: 0, writer: true });
}
