use notes_sync::cache::NoteCache;
use notes_sync::client::{split_tags, Msg, State};
use notes_sync::cors::CORS;
use notes_sync::note::{Note, Operation, UNASSIGNED_ID};
use notes_sync::table::{command_for, NoteTable, TableCommand, TableError};

fn note(operation: Operation, id: i64, changed: i64, title: &str, content: &str) -> Note {
    Note {
        operation,
        id,
        created: changed,
        changed,
        title: title.to_string(),
        content: content.to_string(),
        tags: Vec::new(),
    }
}

fn table_with_two_rows() -> NoteTable {
    let mut t = NoteTable::new();
    assert_eq!(t.insert(10, 10, "one".to_string(), "a".to_string()), Ok(1));
    assert_eq!(t.insert(20, 20, "two".to_string(), "b".to_string()), Ok(2));
    t
}

#[test]
fn scenario_create_then_sync() {
    let mut cache = NoteCache::new();
    cache.create("A".to_string(), "x".to_string(), Vec::new(), 100);
    assert_eq!(cache.len(), 1);
    assert_eq!(cache.notes()[0].id, UNASSIGNED_ID);
    assert_eq!(cache.notes()[0].operation, Operation::Create);
    assert_eq!(cache.notes()[0].created, 100);
    assert_eq!(cache.notes()[0].changed, 100);

    let mut table = NoteTable::new();
    let reply = table.reconcile(cache.notes()).unwrap();
    cache.apply_reply(reply);
    assert_eq!(cache.len(), 1);
    assert_eq!(cache.notes()[0].id, 1);
    assert_eq!(cache.notes()[0].operation, Operation::Synced);
    assert_eq!(cache.notes()[0].title, "A");
    assert_eq!(cache.notes()[0].content, "x");
}

#[test]
fn scenario_delete_and_update_batch() {
    let mut table = table_with_two_rows();
    let batch = vec![
        note(Operation::Delete, 1, 10, "one", "a"),
        note(Operation::Update, 2, 30, "new", "b"),
    ];
    let reply = table.reconcile(&batch).unwrap();
    assert_eq!(reply.len(), 1);
    assert_eq!(reply[0].id, 2);
    assert_eq!(reply[0].title, "new");
    assert_eq!(reply[0].changed, 30);
    assert_eq!(reply[0].created, 20);
    assert_eq!(reply[0].operation, Operation::Synced);
}

#[test]
fn scenario_update_of_missing_row() {
    let mut table = table_with_two_rows();
    let before = table.snapshot();
    let batch = vec![note(Operation::Update, 99, 50, "ghost", "none")];
    let reply = table.reconcile(&batch).unwrap();
    assert_eq!(reply.len(), before.len());
    for (a, b) in reply.iter().zip(before.iter()) {
        assert_eq!(a.id, b.id);
        assert_eq!(a.title, b.title);
        assert_eq!(a.changed, b.changed);
    }
    assert!(!table.update(99, 50, "ghost".to_string(), "none".to_string()));
    assert!(!table.delete(99));
}

#[test]
fn scenario_two_creates_get_distinct_ids() {
    let mut cache = NoteCache::new();
    cache.create("first".to_string(), "1".to_string(), Vec::new(), 5);
    cache.create("second".to_string(), "2".to_string(), Vec::new(), 6);
    assert_eq!(cache.notes()[0].id, UNASSIGNED_ID);
    assert_eq!(cache.notes()[1].id, UNASSIGNED_ID);
    let mut table = NoteTable::new();
    let reply = table.reconcile(cache.notes()).unwrap();
    assert_eq!(reply.len(), 2);
    assert_ne!(reply[0].id, reply[1].id);
    // most recently changed first
    assert_eq!(reply[0].title, "second");
    assert_eq!(reply[0].id, 1);
    assert_eq!(reply[1].title, "first");
    assert_eq!(reply[1].id, 2);
}

#[test]
fn sync_leaves_nothing_pending() {
    let mut table = table_with_two_rows();
    let mut cache = NoteCache::from_notes(table.snapshot());
    cache.create("c".to_string(), "".to_string(), Vec::new(), 40);
    assert!(cache.edit(1, "changed".to_string(), "b".to_string(), 41));
    assert!(cache.delete(2));
    let reply = table.reconcile(cache.notes()).unwrap();
    cache.apply_reply(reply);
    assert_eq!(cache.len(), 2);
    for n in cache.notes() {
        assert_ne!(n.id, UNASSIGNED_ID);
        assert_eq!(n.operation, Operation::Synced);
    }
}

#[test]
fn delete_unsynced_note_is_local() {
    let mut cache = NoteCache::new();
    cache.create("t".to_string(), "c".to_string(), Vec::new(), 1);
    assert!(!cache.delete(0));
    assert_eq!(cache.len(), 0);
}

#[test]
fn delete_synced_note_waits_for_sync() {
    let mut table = table_with_two_rows();
    let mut cache = NoteCache::from_notes(table.snapshot());
    assert!(cache.delete(0));
    assert_eq!(cache.len(), 2);
    assert_eq!(cache.notes()[0].operation, Operation::Delete);
    assert_eq!(cache.visible(), vec![1]);
    let deleted_id = cache.notes()[0].id;
    let reply = table.reconcile(cache.notes()).unwrap();
    cache.apply_reply(reply);
    assert_eq!(cache.len(), 1);
    assert!(cache.notes().iter().all(|n| n.id != deleted_id));
}

#[test]
fn resent_batch_changes_nothing() {
    let mut table = table_with_two_rows();
    let first = table.reconcile(&vec![note(Operation::Create, UNASSIGNED_ID, 30, "three", "c")]).unwrap();
    let second = table.reconcile(&first).unwrap();
    assert_eq!(first.len(), second.len());
    for (a, b) in first.iter().zip(second.iter()) {
        assert_eq!(a.id, b.id);
        assert_eq!(a.created, b.created);
        assert_eq!(a.changed, b.changed);
        assert_eq!(a.title, b.title);
        assert_eq!(a.content, b.content);
    }
    assert_eq!(table.insert(1, 1, "".to_string(), "".to_string()), Ok(4));
}

#[test]
fn unrecognized_entries_are_skipped() {
    let mut table = table_with_two_rows();
    let reply = table.reconcile(&vec![note(Operation::Unrecognized, 1, 99, "x", "y")]).unwrap();
    assert_eq!(reply.len(), 2);
    assert_eq!(reply[0].title, "two");
    assert!(matches!(command_for(&note(Operation::Synced, 1, 1, "", "")), TableCommand::Skip));
}

#[test]
fn snapshot_orders_by_changed_descending() {
    let mut t = NoteTable::new();
    t.insert(1, 5, "mid".to_string(), "".to_string()).unwrap();
    t.insert(1, 9, "late".to_string(), "".to_string()).unwrap();
    t.insert(1, 2, "early".to_string(), "".to_string()).unwrap();
    let s = t.snapshot();
    let titles: Vec<&str> = s.iter().map(|n| n.title.as_str()).collect();
    assert_eq!(titles, vec!["late", "mid", "early"]);
    assert!(t.update(3, 10, "early".to_string(), "now latest".to_string()));
    let s = t.snapshot();
    assert_eq!(s[0].id, 3);
    assert_eq!(s[0].created, 1);
    assert_eq!(s[0].content, "now latest");
    assert!(t.delete(1));
    assert_eq!(t.snapshot().len(), 2);
}

#[test]
fn operation_tags() {
    assert_eq!(Operation::Synced.tag(), "");
    assert_eq!(Operation::Create.tag(), "CREATE");
    assert_eq!(Operation::Update.tag(), "UPDATE");
    assert_eq!(Operation::Delete.tag(), "DELETE");
    assert_eq!(Operation::from_tag(""), Operation::Synced);
    assert_eq!(Operation::from_tag("CREATE"), Operation::Create);
    assert_eq!(Operation::from_tag("UPDATE"), Operation::Update);
    assert_eq!(Operation::from_tag("DELETE"), Operation::Delete);
    assert_eq!(Operation::from_tag("create"), Operation::Unrecognized);
    assert_eq!(Operation::from_tag("PATCH"), Operation::Unrecognized);
}

#[test]
fn edit_rules() {
    let mut cache = NoteCache::new();
    cache.create("t".to_string(), "c".to_string(), Vec::new(), 1);
    assert!(!cache.edit(0, "t".to_string(), "c".to_string(), 2));
    assert_eq!(cache.notes()[0].changed, 1);
    assert!(cache.edit(0, "t2".to_string(), "c".to_string(), 3));
    assert_eq!(cache.notes()[0].operation, Operation::Create);
    assert_eq!(cache.notes()[0].changed, 3);
    assert_eq!(cache.notes()[0].created, 1);

    let mut synced = NoteCache::from_notes(vec![note(Operation::Synced, 4, 1, "a", "b")]);
    assert!(synced.edit(0, "a".to_string(), "bb".to_string(), 7));
    assert_eq!(synced.notes()[0].operation, Operation::Update);
    assert_eq!(synced.notes()[0].content, "bb");
    assert_eq!(synced.notes()[0].id, 4);
}

#[test]
fn tags_split_on_commas() {
    assert_eq!(split_tags("a,b,c"), vec!["a", "b", "c"]);
    assert_eq!(split_tags("work"), vec!["work"]);
    assert_eq!(split_tags(""), vec![""]);
    assert_eq!(split_tags(",x,"), vec!["", "x", ""]);
}

#[test]
fn client_messages() {
    let mut s = State::new(Vec::new());
    assert!(!s.update(Msg::Submit, 1));
    assert_eq!(s.notes().len(), 0);
    assert!(!s.update(Msg::NewTitle("T".to_string()), 1));
    assert!(!s.update(Msg::NewTags("x,y".to_string()), 1));
    assert!(s.update(Msg::Submit, 2));
    assert!(s.is_syncing());
    assert_eq!(s.notes().len(), 1);
    assert_eq!(s.notes()[0].title, "T");
    assert_eq!(s.notes()[0].tags, vec!["x", "y"]);
    assert_eq!(s.notes()[0].operation, Operation::Create);

    // a second change while a sync is in flight starts no second sync
    assert!(!s.update(Msg::NewContent("more".to_string()), 3));
    assert!(!s.update(Msg::Submit, 3));
    assert_eq!(s.notes().len(), 2);

    assert!(!s.update(Msg::SyncFailed, 4));
    assert_eq!(s.message(), "Sync failed");
    assert!(!s.is_syncing());
    assert_eq!(s.notes().len(), 2);

    let mut table = NoteTable::new();
    let reply = table.reconcile(s.notes()).unwrap();
    assert!(!s.update(Msg::SyncComplete(reply), 5));
    assert_eq!(s.notes().len(), 2);
    assert!(s.notes().iter().all(|n| n.operation == Operation::Synced && n.id >= 1));
}

#[test]
fn client_edit_save_delete() {
    let mut s = State::new(vec![note(Operation::Synced, 7, 1, "a", "b")]);
    assert!(!s.update(Msg::Edit(0), 2));
    assert_eq!(s.is_edited(), Some(0));
    assert!(!s.update(Msg::EditTitle("a2".to_string()), 2));
    assert!(s.update(Msg::Save(0), 3));
    assert_eq!(s.is_edited(), None);
    assert_eq!(s.notes()[0].title, "a2");
    assert_eq!(s.notes()[0].operation, Operation::Update);
    assert_eq!(s.notes()[0].changed, 3);

    assert!(!s.update(Msg::SyncFailed, 4));
    assert!(!s.update(Msg::Edit(0), 5));
    assert!(s.update(Msg::Delete(0), 5));
    assert_eq!(s.is_edited(), None);
    assert_eq!(s.notes()[0].operation, Operation::Delete);
    assert!(s.visible().is_empty());
}

#[test]
fn cors_headers() {
    let h = CORS.headers();
    assert_eq!(h.len(), 4);
    assert_eq!(h[0], ("Access-Control-Allow-Origin".to_string(), "*".to_string()));
    assert_eq!(h[1], ("Access-Control-Allow-Methods".to_string(), "GET, POST, OPTIONS".to_string()));
    assert_eq!(h[2], ("Access-Control-Allow-Headers".to_string(), "*".to_string()));
    assert_eq!(h[3], ("Access-Control-Allow-Credentials".to_string(), "true".to_string()));
}

#[test]
fn exhausted_ids_stop_the_batch_without_rollback() {
    let mut table = NoteTable::with_next_id(i64::MAX - 1);
    let batch = vec![
        note(Operation::Create, UNASSIGNED_ID, 1, "fits", ""),
        note(Operation::Create, UNASSIGNED_ID, 2, "too many", ""),
        note(Operation::Create, UNASSIGNED_ID, 3, "never tried", ""),
    ];
    assert_eq!(table.reconcile(&batch).err(), Some(TableError::IdsExhausted));
    let s = table.snapshot();
    assert_eq!(s.len(), 1);
    assert_eq!(s[0].id, i64::MAX - 1);
    assert_eq!(s[0].title, "fits");
    assert_eq!(
        table.insert(1, 1, "".to_string(), "".to_string()),
        Err(TableError::IdsExhausted)
    );
}

#[test]
fn execute_dispatches_commands() {
    let mut table = NoteTable::new();
    let create = note(Operation::Create, UNASSIGNED_ID, 8, "n", "c");
    assert_eq!(table.execute(command_for(&create)), Ok(()));
    assert_eq!(table.execute(command_for(&note(Operation::Delete, 1, 9, "", ""))), Ok(()));
    assert_eq!(table.snapshot().len(), 0);
}
