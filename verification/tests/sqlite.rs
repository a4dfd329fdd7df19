use licitacija::import::{
    import_from_json, ImportAction, ImportEvent, ImportSession, ImportStep,
};
use licitacija::migration::live_columns_query;
use licitacija::schema::ConfigurationError;
use licitacija::log::{retention_sql, LogEntry};
use licitacija::replay::{UndoAction, UndoEvent, UndoPhase, UndoSession};
use licitacija::migration::migrations;
use licitacija::parse::parse_statement;
use licitacija::schema::find_table;
use licitacija::statement::StatementKind;
use licitacija::template::{delete_key_template, insert_replay_template, update_set_template};
use licitacija::trigger::triggers_for;
use licitacija::value::{Decimal, SqlValue};
use rusqlite::types::Value;
use rusqlite::Connection;

fn open() -> Connection {
    let conn = Connection::open_in_memory().unwrap();
    let mut plan = migrations();
    plan.sort_by_key(|m| m.version);
    for step in plan {
        conn.execute_batch(&step.sql).unwrap();
    }
    conn
}

fn log_of(conn: &Connection) -> Vec<(i64, String)> {
    let mut statement = conn.prepare("SELECT seq, sql FROM undolog ORDER BY seq").unwrap();
    let rows = statement
        .query_map((), |row| Ok((row.get::<_, i64>(0)?, row.get::<_, String>(1)?)))
        .unwrap();
    rows.map(|r| r.unwrap()).collect()
}

fn count(conn: &Connection, table: &str) -> i64 {
    conn.query_row(&format!("SELECT COUNT(*) FROM {}", table), (), |row| row.get(0)).unwrap()
}

fn buyer_names(conn: &Connection) -> Vec<(i64, String)> {
    let mut statement = conn.prepare("SELECT id, buyer_name FROM buyers ORDER BY id").unwrap();
    let rows = statement
        .query_map((), |row| Ok((row.get::<_, i64>(0)?, row.get::<_, String>(1)?)))
        .unwrap();
    rows.map(|r| r.unwrap()).collect()
}

fn to_sqlite(value: &SqlValue) -> Value {
    match value {
        SqlValue::Null => Value::Null,
        SqlValue::Integer(i) => Value::Integer(*i),
        SqlValue::Real(d) => Value::Real(d.as_str().parse().unwrap()),
        SqlValue::Text(t) => Value::Text(t.clone()),
    }
}

fn run(conn: &Connection, step: &ImportStep) {
    match step {
        ImportStep::Truncate { .. } => {
            conn.execute(&step.sql(), ()).unwrap();
        }
        ImportStep::Insert { values, .. } => {
            let bound: Vec<Value> = values.iter().map(to_sqlite).collect();
            conn.execute(&step.sql(), rusqlite::params_from_iter(bound)).unwrap();
        }
    }
}

#[test]
fn migrations_build_the_store() {
    let conn = open();
    assert_eq!(count(&conn, "tree_species"), 20);
    assert_eq!(count(&conn, "buyers"), 0);
    // the seeds went in while the triggers were there
    let log = log_of(&conn);
    assert_eq!(log.len(), 21);
    assert_eq!(log[0].1, "DELETE FROM tree_species WHERE id=1");
    assert_eq!(log[20].1, "DELETE FROM settings WHERE id=1");
}

#[test]
fn insert_delete_and_undo_a_buyer() {
    let conn = open();
    conn.execute("DELETE FROM undolog", ()).unwrap();
    conn.execute(
        "INSERT INTO buyers (buyer_name, address_line1) VALUES ('O''Brien', '5 Elm St')",
        (),
    )
    .unwrap();
    let log = log_of(&conn);
    assert_eq!(log.len(), 1);
    let key = buyer_names(&conn)[0].0;
    assert_eq!(log[0].1, format!("DELETE FROM buyers WHERE id={}", key));
    conn.execute("DELETE FROM buyers WHERE id=?1", [key]).unwrap();
    let log = log_of(&conn);
    assert_eq!(log.len(), 2);
    assert_eq!(count(&conn, "buyers"), 0);
    assert_eq!(
        log[1].1,
        format!("INSERT INTO buyers (id, buyer_name, address_line1, address_line2, additional_costs, is_vat_liable, used_bundle, used_loading, loading_costs, ident) VALUES ({}, 'O''Brien', '5 Elm St', NULL, NULL, 1, 1, 1, 5.0, '');", key)
    );
    conn.execute(&log[1].1, ()).unwrap();
    assert_eq!(buyer_names(&conn), vec![(key, "O'Brien".to_string())]);
    let address: String = conn
        .query_row("SELECT address_line1 FROM buyers WHERE id=?1", [key], |row| row.get(0))
        .unwrap();
    assert_eq!(address, "5 Elm St");
    conn.execute(&log[0].1, ()).unwrap();
    assert_eq!(count(&conn, "buyers"), 0);
}

#[test]
fn what_the_triggers_log_is_what_the_templates_yield() {
    let conn = open();
    conn.execute("DELETE FROM undolog", ()).unwrap();
    conn.execute(
        "INSERT INTO buyers (id, buyer_name, address_line1, additional_costs, ident) VALUES (4, 'O''Brien', 'a, b', -0.06, NULL)",
        (),
    )
    .unwrap();
    conn.execute("UPDATE buyers SET buyer_name='x', used_bundle=0 WHERE id=4", ()).unwrap();
    conn.execute("DELETE FROM buyers WHERE id=4", ()).unwrap();
    let log = log_of(&conn);
    let buyers = find_table("buyers").unwrap();
    let first = vec![
        SqlValue::Text("O'Brien".to_string()),
        SqlValue::Text("a, b".to_string()),
        SqlValue::Null,
        SqlValue::Real(Decimal::parse("-0.06").unwrap()),
        SqlValue::Integer(1),
        SqlValue::Integer(1),
        SqlValue::Integer(1),
        SqlValue::Real(Decimal::parse("5.0").unwrap()),
        SqlValue::Null,
    ];
    let mut second = first.clone();
    second[0] = SqlValue::Text("x".to_string());
    second[5] = SqlValue::Integer(0);
    assert_eq!(log[0].1, delete_key_template(&buyers).evaluate(4, &first, 4).unwrap());
    assert_eq!(log[1].1, update_set_template(&buyers).evaluate(4, &first, 4).unwrap());
    assert_eq!(log[2].1, insert_replay_template(&buyers).evaluate(4, &second, 4).unwrap());
    // and every logged text is read back as the statement it writes
    let kinds: Vec<StatementKind> =
        log.iter().map(|(_, sql)| parse_statement(sql).unwrap().kind()).collect();
    assert_eq!(kinds, vec![StatementKind::Delete, StatementKind::Update, StatementKind::Insert]);
    let parsed = parse_statement(&log[2].1).unwrap();
    assert_eq!(parsed.key(), 4);
    assert_eq!(parsed.values(), &second);
    assert_eq!(parsed.to_sql(), log[2].1);
}

#[test]
fn update_is_undone_by_its_logged_statement() {
    let conn = open();
    conn.execute(
        "INSERT INTO sellers (id, seller_name, iban, is_flat_rate, transport_costs) VALUES (2, 'It''s', NULL, 1, 3.25)",
        (),
    )
    .unwrap();
    conn.execute("DELETE FROM undolog", ()).unwrap();
    conn.execute(
        "UPDATE sellers SET seller_name='other', iban='SI56', is_flat_rate=NULL, transport_costs=0 WHERE id=2",
        (),
    )
    .unwrap();
    let log = log_of(&conn);
    assert_eq!(log.len(), 1);
    conn.execute(&log[0].1, ()).unwrap();
    let row: (String, Option<String>, Option<i64>, f64) = conn
        .query_row(
            "SELECT seller_name, iban, is_flat_rate, transport_costs FROM sellers WHERE id=2",
            (),
            |row| Ok((row.get(0)?, row.get(1)?, row.get(2)?, row.get(3)?)),
        )
        .unwrap();
    assert_eq!(row, ("It's".to_string(), None, Some(1), 3.25));
}

#[test]
fn installing_the_triggers_twice_logs_once() {
    let conn = open();
    for name in ["buyers", "sellers", "settings"] {
        conn.execute_batch(&triggers_for(name).unwrap()).unwrap();
        conn.execute_batch(&triggers_for(name).unwrap()).unwrap();
    }
    for step in migrations() {
        if step.description.starts_with("add_triggers_for_") {
            conn.execute_batch(&step.sql).unwrap();
        }
    }
    conn.execute("DELETE FROM undolog", ()).unwrap();
    conn.execute("INSERT INTO buyers (buyer_name) VALUES ('A')", ()).unwrap();
    assert_eq!(log_of(&conn).len(), 1);
    conn.execute("UPDATE buyers SET buyer_name='B'", ()).unwrap();
    assert_eq!(log_of(&conn).len(), 2);
    conn.execute("DELETE FROM buyers", ()).unwrap();
    assert_eq!(log_of(&conn).len(), 3);
    let triggers: i64 = conn
        .query_row("SELECT COUNT(*) FROM sqlite_master WHERE type='trigger'", (), |row| row.get(0))
        .unwrap();
    assert_eq!(triggers, 18);
}

#[test]
fn import_replaces_the_rows_of_a_table() {
    let conn = open();
    conn.execute("INSERT INTO buyers (buyer_name) VALUES ('old one')", ()).unwrap();
    conn.execute("INSERT INTO buyers (buyer_name) VALUES ('old two')", ()).unwrap();
    conn.execute("INSERT INTO buyers (buyer_name) VALUES ('old three')", ()).unwrap();
    conn.execute("INSERT INTO sellers (seller_name) VALUES ('stays')", ()).unwrap();
    let plan = import_from_json(
        r#"{"buyers": [
            {"id": 10, "buyer_name": "O'Brien", "additional_costs": 1.5, "ident": null},
            {"id": 11, "buyer_name": "Second", "is_vat_liable": 0}
        ]}"#,
    )
    .unwrap();
    for step in &plan {
        run(&conn, step);
    }
    assert_eq!(
        buyer_names(&conn),
        vec![(10, "O'Brien".to_string()), (11, "Second".to_string())]
    );
    let costs: f64 = conn
        .query_row("SELECT additional_costs FROM buyers WHERE id=10", (), |row| row.get(0))
        .unwrap();
    assert_eq!(costs, 1.5);
    let liable: i64 = conn
        .query_row("SELECT is_vat_liable FROM buyers WHERE id=11", (), |row| row.get(0))
        .unwrap();
    assert_eq!(liable, 0);
    assert_eq!(count(&conn, "sellers"), 1);
}

fn report(done: rusqlite::Result<()>) -> UndoEvent {
    match done {
        Ok(()) => UndoEvent::Done,
        Err(_) => UndoEvent::Failed,
    }
}

fn fetch(conn: &Connection, query: &str) -> UndoEvent {
    let mut statement = match conn.prepare(query) {
        Ok(statement) => statement,
        Err(_) => return UndoEvent::Failed,
    };
    let rows = statement
        .query_map((), |row| Ok(LogEntry::new(row.get(0)?, row.get(1)?)))
        .unwrap();
    UndoEvent::Fetched(rows.map(|r| r.unwrap()).collect())
}

fn undo(conn: &Connection, n: usize) -> UndoAction {
    let mut session = UndoSession::new(n);
    let mut event = UndoEvent::Begin;
    loop {
        let action = session.step(event);
        event = match &action {
            UndoAction::Begin => report(conn.execute_batch("BEGIN")),
            UndoAction::Fetch(query) => fetch(conn, query),
            UndoAction::Execute(sql) => report(conn.execute_batch(sql)),
            UndoAction::Commit => report(conn.execute_batch("COMMIT")),
            UndoAction::Rollback => report(conn.execute_batch("ROLLBACK")),
            _ => {
                assert_eq!(session.phase(), UndoPhase::Finished);
                return action;
            }
        };
    }
}

#[test]
fn undo_session_takes_back_the_newest_changes() {
    let conn = open();
    conn.execute("DELETE FROM undolog", ()).unwrap();
    conn.execute("INSERT INTO buyers (id, buyer_name) VALUES (1, 'O''Brien')", ()).unwrap();
    conn.execute("INSERT INTO buyers (id, buyer_name) VALUES (2, 'Second')", ()).unwrap();
    conn.execute("UPDATE buyers SET buyer_name='changed' WHERE id=1", ()).unwrap();
    conn.execute("DELETE FROM buyers WHERE id=2", ()).unwrap();
    assert_eq!(log_of(&conn).len(), 4);
    assert_eq!(undo(&conn, 2), UndoAction::Complete(2));
    assert_eq!(
        buyer_names(&conn),
        vec![(1, "O'Brien".to_string()), (2, "Second".to_string())]
    );
    let log = log_of(&conn);
    assert_eq!(log.len(), 2);
    assert_eq!(log[1].1, "DELETE FROM buyers WHERE id=2");
    assert_eq!(undo(&conn, 10), UndoAction::Complete(2));
    assert_eq!(count(&conn, "buyers"), 0);
    assert_eq!(log_of(&conn).len(), 0);
    assert_eq!(undo(&conn, 1), UndoAction::Complete(0));
}

#[test]
fn undo_session_rolls_back_when_a_statement_fails() {
    let conn = open();
    conn.execute("DELETE FROM undolog", ()).unwrap();
    conn.execute("INSERT INTO buyers (id, buyer_name) VALUES (1, 'A')", ()).unwrap();
    conn.execute("INSERT INTO undolog (sql) VALUES ('DELETE FROM no_such_table WHERE id=1')", ())
        .unwrap();
    conn.execute("INSERT INTO buyers (id, buyer_name) VALUES (2, 'B')", ()).unwrap();
    let before = log_of(&conn);
    assert_eq!(before.len(), 3);
    assert_eq!(undo(&conn, 3), UndoAction::Failed(Some(before[1].0)));
    assert_eq!(buyer_names(&conn), vec![(1, "A".to_string()), (2, "B".to_string())]);
    assert_eq!(log_of(&conn), before);
    assert_eq!(undo(&conn, 1), UndoAction::Complete(1));
    assert_eq!(buyer_names(&conn), vec![(1, "A".to_string())]);
}

#[test]
fn stored_log_is_cut_back_to_its_newest_entries() {
    let conn = open();
    assert_eq!(log_of(&conn).len(), 21);
    conn.execute(&retention_sql(30), ()).unwrap();
    assert_eq!(log_of(&conn).len(), 21);
    conn.execute(&retention_sql(3), ()).unwrap();
    let log = log_of(&conn);
    assert_eq!(log.len(), 3);
    assert_eq!(log[2].1, "DELETE FROM settings WHERE id=1");
    assert_eq!(log[0].0 + 2, log[2].0);
    conn.execute(&retention_sql(0), ()).unwrap();
    assert_eq!(log_of(&conn).len(), 0);
}

fn live_columns(conn: &Connection, table: &licitacija::schema::TrackedTable) -> Vec<String> {
    let mut statement = conn.prepare(&live_columns_query(table)).unwrap();
    let live = statement.query_map((), |row| row.get(0)).unwrap().map(|r| r.unwrap()).collect();
    live
}

#[test]
fn registry_matches_the_tables_that_the_migrations_create() {
    let conn = open();
    for table in licitacija::schema::tracked_tables() {
        let live = live_columns(&conn, &table);
        assert!(table.matches_live(&live), "{}: {:?}", table.name(), live);
        assert_eq!(table.check_live(&live), Ok(()));
    }
}

#[test]
fn a_table_that_left_the_registry_behind_is_found_out() {
    let conn = Connection::open_in_memory().unwrap();
    let buyers = find_table("buyers").unwrap();
    // no table yet: nothing to hold against the registry
    assert_eq!(live_columns(&conn, &buyers), Vec::<String>::new());
    assert_eq!(buyers.check_live(&live_columns(&conn, &buyers)), Ok(()));
    conn.execute_batch("CREATE TABLE buyers (id INTEGER PRIMARY KEY, buyer_name VARCHAR)").unwrap();
    assert_eq!(
        buyers.check_live(&live_columns(&conn, &buyers)),
        Err(ConfigurationError::StaleSchema)
    );
}

#[test]
fn computed_columns_come_back_with_the_row() {
    let conn = open();
    conn.execute("INSERT INTO sellers (id, seller_name) VALUES (1, 'S')", ()).unwrap();
    conn.execute("DELETE FROM undolog", ()).unwrap();
    conn.execute(
        "INSERT INTO wood_pieces (id, length, width, seller_id, tree_species_id) VALUES (1, 4.0, 50.0, 1, 1)",
        (),
    )
    .unwrap();
    let piece = |conn: &Connection| -> Option<(f64, f64, f64)> {
        conn.query_row("SELECT length, width, volume FROM wood_pieces WHERE id=1", (), |row| {
            Ok((row.get(0)?, row.get(1)?, row.get(2)?))
        })
        .ok()
    };
    assert_eq!(piece(&conn), Some((4.0, 50.0, 0.79)));
    conn.execute("UPDATE wood_pieces SET length=5.0 WHERE id=1", ()).unwrap();
    assert_eq!(piece(&conn), Some((5.0, 50.0, 0.98)));
    conn.execute("DELETE FROM wood_pieces WHERE id=1", ()).unwrap();
    assert_eq!(piece(&conn), None);
    assert_eq!(undo(&conn, 1), UndoAction::Complete(1));
    assert_eq!(piece(&conn), Some((5.0, 50.0, 0.98)));
    assert_eq!(undo(&conn, 1), UndoAction::Complete(1));
    assert_eq!(piece(&conn), Some((4.0, 50.0, 0.79)));
    assert_eq!(undo(&conn, 1), UndoAction::Complete(1));
    assert_eq!(piece(&conn), None);
    assert_eq!(log_of(&conn).len(), 0);
}

fn answer(done: rusqlite::Result<()>) -> ImportEvent {
    match done {
        Ok(()) => ImportEvent::Done,
        Err(_) => ImportEvent::Failed,
    }
}

fn import(conn: &Connection, json: &str) -> ImportAction {
    let mut session = ImportSession::from_json(json).unwrap();
    let mut event = ImportEvent::Begin;
    loop {
        let action = session.step(event);
        event = match &action {
            ImportAction::Begin => answer(conn.execute_batch("BEGIN")),
            ImportAction::Execute { sql, values } => {
                let bound: Vec<Value> = values.iter().map(to_sqlite).collect();
                answer(conn.execute(sql, rusqlite::params_from_iter(bound)).map(|_| ()))
            }
            ImportAction::Commit => answer(conn.execute_batch("COMMIT")),
            ImportAction::Rollback => answer(conn.execute_batch("ROLLBACK")),
            _ => return action,
        };
    }
}

#[test]
fn import_keeps_integers_whole() {
    let conn = open();
    assert_eq!(
        import(
            &conn,
            r#"{"wood_piece_offers":[{"id":9007199254740993,"offered_price":1.5}]}"#
        ),
        ImportAction::Complete(2)
    );
    let rows: Vec<(i64, f64)> = conn
        .prepare("SELECT id, offered_price FROM wood_piece_offers")
        .unwrap()
        .query_map((), |row| Ok((row.get(0)?, row.get(1)?)))
        .unwrap()
        .map(|r| r.unwrap())
        .collect();
    assert_eq!(rows, vec![(9007199254740993, 1.5)]);
}

#[test]
fn import_that_fails_leaves_the_store_as_it_was() {
    let conn = open();
    conn.execute("INSERT INTO buyers (id, buyer_name) VALUES (5, 'Old')", ()).unwrap();
    let log_before = log_of(&conn);
    assert_eq!(
        import(
            &conn,
            r#"{"buyers":[{"id":1,"buyer_name":"A"},{"id":1,"buyer_name":"B"}]}"#
        ),
        ImportAction::Failed(Some(2))
    );
    assert_eq!(buyer_names(&conn), vec![(5, "Old".to_string())]);
    assert_eq!(log_of(&conn), log_before);
    // and the same payload without the clash goes in whole
    assert_eq!(
        import(
            &conn,
            r#"{"buyers":[{"id":1,"buyer_name":"A"},{"id":2,"buyer_name":"B"}]}"#
        ),
        ImportAction::Complete(3)
    );
    assert_eq!(buyer_names(&conn), vec![(1, "A".to_string()), (2, "B".to_string())]);
}
