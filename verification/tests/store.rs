use licitacija::log::{LogFull, UndoLog};
use licitacija::schema::{find_table, tracked_tables, TrackedTable};
use licitacija::store::{Database, ReplayError, StoreError};
use licitacija::value::{Decimal, SqlValue};

fn text(s: &str) -> SqlValue {
    SqlValue::Text(s.to_string())
}

fn buyer(name: &str, address: &str) -> Vec<SqlValue> {
    vec![
        text(name),
        text(address),
        SqlValue::Null,
        SqlValue::Null,
        SqlValue::Integer(1),
        SqlValue::Integer(1),
        SqlValue::Integer(1),
        SqlValue::Real(Decimal::parse("5.0").unwrap()),
        text(""),
    ]
}

fn store() -> Database {
    let mut db = Database::new(tracked_tables());
    db.install_triggers();
    db
}

fn statements(db: &Database) -> Vec<String> {
    (0..db.log().len())
        .map(|i| db.log().entry(i).unwrap().statement().to_string())
        .collect()
}

#[test]
fn insert_logs_one_delete() {
    let mut db = store();
    assert_eq!(db.insert("buyers", 1, buyer("O'Brien", "5 Elm St")), Ok(()));
    assert_eq!(statements(&db), vec!["DELETE FROM buyers WHERE id=1"]);
    assert_eq!(db.log().entry(0).unwrap().sequence(), 1);
    assert_eq!(db.row("buyers", 1), Some(buyer("O'Brien", "5 Elm St")));
    assert_eq!(db.row_count("buyers"), Some(1));
}

#[test]
fn delete_logs_one_insert_with_the_key_and_all_columns() {
    let mut db = store();
    db.insert("buyers", 7, buyer("O'Brien", "5 Elm St")).unwrap();
    assert_eq!(db.delete("buyers", 7), Ok(true));
    assert_eq!(db.log().len(), 2);
    assert_eq!(
        db.log().entry(1).unwrap().statement(),
        "INSERT INTO buyers (id, buyer_name, address_line1, address_line2, additional_costs, is_vat_liable, used_bundle, used_loading, loading_costs, ident) VALUES (7, 'O''Brien', '5 Elm St', NULL, NULL, 1, 1, 1, 5.0, '');"
    );
    assert_eq!(db.log().entry(1).unwrap().sequence(), 2);
    assert_eq!(db.row("buyers", 7), None);
}

#[test]
fn update_logs_one_update_with_the_old_values() {
    let mut db = store();
    db.insert("settings", 1, vec![SqlValue::Integer(22), text("a'b"), SqlValue::Null]).unwrap();
    let new = vec![SqlValue::Integer(23), text("c"), SqlValue::Integer(7)];
    assert_eq!(db.update("settings", 1, new.clone()), Ok(true));
    assert_eq!(
        db.log().entry(1).unwrap().statement(),
        "UPDATE settings SET licitator_fixed_cost=22, licitator_percentage='a''b', bundle_cost=NULL WHERE id=1"
    );
    assert_eq!(db.row("settings", 1), Some(new));
}

#[test]
fn insert_then_delete_then_undo_both() {
    let mut db = store();
    db.insert("buyers", 1, buyer("O'Brien", "5 Elm St")).unwrap();
    assert_eq!(db.log().len(), 1);
    assert_eq!(db.delete("buyers", 1), Ok(true));
    assert_eq!(db.log().len(), 2);
    let second = db.log().entry(1).unwrap().statement().to_string();
    let first = db.log().entry(0).unwrap().statement().to_string();
    assert_eq!(db.execute(&second), Ok(()));
    assert_eq!(db.row("buyers", 1), Some(buyer("O'Brien", "5 Elm St")));
    assert_eq!(db.execute(&first), Ok(()));
    assert_eq!(db.row("buyers", 1), None);
    assert_eq!(db.row_count("buyers"), Some(0));
    assert_eq!(db.log().len(), 2);
}

#[test]
fn undo_last_takes_changes_back_newest_first() {
    let mut db = store();
    db.insert("buyers", 1, buyer("O'Brien", "5 Elm St")).unwrap();
    db.update("buyers", 1, buyer("O'Brien", "6 Elm St")).unwrap();
    db.delete("buyers", 1).unwrap();
    assert_eq!(db.log().len(), 3);
    assert_eq!(db.undo_last(1), Ok(1));
    assert_eq!(db.row("buyers", 1), Some(buyer("O'Brien", "6 Elm St")));
    assert_eq!(db.log().len(), 2);
    assert_eq!(db.undo_last(1), Ok(1));
    assert_eq!(db.row("buyers", 1), Some(buyer("O'Brien", "5 Elm St")));
    assert_eq!(db.undo_last(5), Ok(1));
    assert_eq!(db.row_count("buyers"), Some(0));
    assert_eq!(db.log().len(), 0);
    assert_eq!(db.undo_last(1), Ok(0));
}

#[test]
fn undo_of_several_changes_at_once() {
    let mut db = store();
    db.insert("buyers", 1, buyer("A", "1")).unwrap();
    db.insert("buyers", 2, buyer("B", "2")).unwrap();
    db.insert("sellers", 1, vec![SqlValue::Null; 13]).unwrap();
    db.update("buyers", 2, buyer("B", "3")).unwrap();
    db.delete("buyers", 1).unwrap();
    assert_eq!(db.undo_last(3), Ok(3));
    assert_eq!(db.row("buyers", 1), Some(buyer("A", "1")));
    assert_eq!(db.row("buyers", 2), Some(buyer("B", "2")));
    assert_eq!(db.row_count("sellers"), Some(0));
    assert_eq!(db.log().len(), 2);
}

#[test]
fn replay_logs_nothing_and_sequence_numbers_are_not_reused() {
    let mut db = store();
    db.insert("buyers", 1, buyer("A", "1")).unwrap();
    db.insert("buyers", 2, buyer("B", "2")).unwrap();
    assert_eq!(db.undo_last(1), Ok(1));
    assert_eq!(db.log().len(), 1);
    db.insert("buyers", 3, buyer("C", "3")).unwrap();
    assert_eq!(db.log().entry(1).unwrap().sequence(), 3);
}

#[test]
fn failed_replay_changes_nothing_and_names_the_entry() {
    let mut db = store();
    db.insert("buyers", 1, buyer("A", "1")).unwrap();
    db.delete("buyers", 1).unwrap();
    db.insert("buyers", 2, buyer("B", "2")).unwrap();
    // the row that the second entry would bring back is put there by hand
    db.execute("INSERT INTO buyers (id, buyer_name, address_line1, address_line2, additional_costs, is_vat_liable, used_bundle, used_loading, loading_costs, ident) VALUES (1, 'X', NULL, NULL, NULL, NULL, NULL, NULL, NULL, NULL);").unwrap();
    let before_rows = (db.row("buyers", 1), db.row("buyers", 2));
    assert_eq!(
        db.undo_last(2),
        Err(ReplayError { sequence: 2, reason: StoreError::DuplicateKey })
    );
    assert_eq!((db.row("buyers", 1), db.row("buyers", 2)), before_rows);
    assert_eq!(db.log().len(), 3);
}

#[test]
fn installing_triggers_again_does_not_double_the_log() {
    let mut db = Database::new(tracked_tables());
    assert_eq!(db.is_logged("buyers"), Some(false));
    db.insert("buyers", 1, buyer("A", "1")).unwrap();
    assert_eq!(db.log().len(), 0);
    db.install_triggers();
    db.install_triggers();
    db.install_triggers();
    assert_eq!(db.is_logged("buyers"), Some(true));
    db.insert("buyers", 2, buyer("B", "2")).unwrap();
    assert_eq!(db.log().len(), 1);
    db.update("buyers", 2, buyer("B", "3")).unwrap();
    assert_eq!(db.log().len(), 2);
    db.delete("buyers", 2).unwrap();
    assert_eq!(db.log().len(), 3);
    assert_eq!(db.row("buyers", 1), Some(buyer("A", "1")));
}

#[test]
fn changes_that_change_nothing_log_nothing() {
    let mut db = store();
    assert_eq!(db.delete("buyers", 9), Ok(false));
    assert_eq!(db.update("buyers", 9, buyer("A", "1")), Ok(false));
    assert_eq!(db.log().len(), 0);
}

#[test]
fn refused_changes() {
    let mut db = store();
    assert_eq!(db.insert("images", 1, vec![]), Err(StoreError::UnknownTable));
    assert_eq!(db.delete("images", 1), Err(StoreError::UnknownTable));
    assert_eq!(db.update("images", 1, vec![]), Err(StoreError::UnknownTable));
    assert_eq!(db.insert("buyers", 1, vec![SqlValue::Null]), Err(StoreError::ColumnMismatch));
    db.insert("buyers", 1, buyer("A", "1")).unwrap();
    assert_eq!(db.insert("buyers", 1, buyer("B", "2")), Err(StoreError::DuplicateKey));
    assert_eq!(db.update("buyers", 1, vec![]), Err(StoreError::ColumnMismatch));
    assert_eq!(db.execute("DROP TABLE buyers"), Err(StoreError::Malformed));
    assert_eq!(db.execute("DELETE FROM images WHERE id=1"), Err(StoreError::UnknownTable));
    assert_eq!(
        db.execute("INSERT INTO buyers (id, buyer_name) VALUES (2, 'x');"),
        Err(StoreError::ColumnMismatch)
    );
    assert_eq!(db.row_count("images"), None);
    assert_eq!(db.row("images", 1), None);
    assert_eq!(db.is_logged("images"), None);
    assert_eq!(db.log().len(), 1);
}

#[test]
fn round_trips_keep_awkward_values() {
    let table = TrackedTable::new("notes", vec!["body".to_string()]).unwrap();
    let mut db = Database::new(vec![table]);
    db.install_triggers();
    let awkward = vec![
        text("O'Brien"),
        text("'); DELETE FROM notes WHERE id=1"),
        text(""),
        SqlValue::Null,
        SqlValue::Integer(-5),
        SqlValue::Real(Decimal::parse("-0.06").unwrap()),
    ];
    for (i, value) in awkward.iter().enumerate() {
        let key = i as i64 + 1;
        db.insert("notes", key, vec![value.clone()]).unwrap();
        db.update("notes", key, vec![text("changed")]).unwrap();
        assert_eq!(db.undo_last(1), Ok(1));
        assert_eq!(db.row("notes", key), Some(vec![value.clone()]));
        db.delete("notes", key).unwrap();
        assert_eq!(db.row("notes", key), None);
        assert_eq!(db.undo_last(1), Ok(1));
        assert_eq!(db.row("notes", key), Some(vec![value.clone()]));
        assert_eq!(db.undo_last(1), Ok(1));
        assert_eq!(db.row("notes", key), None);
    }
    assert_eq!(db.log().len(), 0);
    assert_eq!(db.table_count(), 1);
    assert_eq!(find_table("notes").is_err(), true);
}

#[test]
fn a_full_log_refuses_changes() {
    assert_eq!(UndoLog::resume(-1), None);
    let mut log = UndoLog::resume(i64::MAX - 1).unwrap();
    assert_eq!(log.append("a".to_string()), Ok(i64::MAX));
    assert_eq!(log.append("b".to_string()), Err(LogFull));
    assert_eq!(log.len(), 1);
    let mut db = Database::with_log(tracked_tables(), UndoLog::resume(i64::MAX).unwrap());
    db.insert("buyers", 1, buyer("A", "1")).unwrap();
    db.install_triggers();
    assert_eq!(db.insert("buyers", 2, buyer("B", "2")), Err(StoreError::LogFull));
    assert_eq!(db.update("buyers", 1, buyer("A", "2")), Err(StoreError::LogFull));
    assert_eq!(db.delete("buyers", 1), Err(StoreError::LogFull));
    assert_eq!(db.row("buyers", 1), Some(buyer("A", "1")));
    assert_eq!(db.row("buyers", 2), None);
    assert_eq!(db.delete("buyers", 9), Ok(false));
}

#[test]
fn what_is_dropped_from_the_log_can_no_longer_be_undone() {
    let mut db = store();
    db.insert("buyers", 1, buyer("A", "1")).unwrap();
    db.insert("buyers", 2, buyer("B", "2")).unwrap();
    db.insert("buyers", 3, buyer("C", "3")).unwrap();
    db.retain_log(2);
    assert_eq!(db.log().len(), 2);
    assert_eq!(db.undo_last(5), Ok(2));
    assert_eq!(db.row("buyers", 1), Some(buyer("A", "1")));
    assert_eq!(db.row_count("buyers"), Some(1));
    assert_eq!(db.log().len(), 0);
}
