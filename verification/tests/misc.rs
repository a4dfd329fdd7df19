use licitacija::backup::backup_percentage;
use licitacija::import::ImportError;
use licitacija::log::{retention_sql, LogFull, UndoLog};
use licitacija::store::{ReplayError, StoreError};
use licitacija::migration::{
    database_url, live_columns_query, migrations, table_creation_sql, MigrationKind,
    BUYERS_TABLE_SQL, DATABASE_FILE, UNDOLOG_TABLE_SQL,
};
use licitacija::log::LogEntry;
use licitacija::replay::{UndoAction, UndoEvent, UndoPhase, UndoSession};
use licitacija::reset::{reset_step, ResetAction, ResetEvent, ResetState};
use licitacija::schema::ConfigurationError;
use licitacija::seed::{SQL_STATEMENT_SETTINGS, SQL_STATEMENT_TREE_SPECIES};
use licitacija::text::{join_texts, same_text, to_chars};
use licitacija::trigger::triggers_for;

#[test]
fn backup_percentage_counts_copied_pages() {
    assert_eq!(backup_percentage(0, 10), 100);
    assert_eq!(backup_percentage(10, 10), 0);
    assert_eq!(backup_percentage(5, 10), 50);
    assert_eq!(backup_percentage(1, 3), 67);
    assert_eq!(backup_percentage(2, 3), 34);
    assert_eq!(backup_percentage(7, 0), 0);
    assert_eq!(backup_percentage(7, -1), 0);
    assert_eq!(backup_percentage(i32::MAX, i32::MAX), 0);
    assert_eq!(backup_percentage(i32::MAX, 1), 100 - 214748364700);
    assert_eq!(backup_percentage(-1, 3), 133);
}

#[test]
fn log_numbers_its_entries() {
    let mut log = UndoLog::new();
    assert_eq!(log.len(), 0);
    assert_eq!(log.append("a".to_string()), Ok(1));
    assert_eq!(log.append("b".to_string()), Ok(2));
    assert_eq!(log.append("c".to_string()), Ok(3));
    assert_eq!(log.len(), 3);
    assert_eq!(log.entry(1).unwrap().statement(), "b");
    assert_eq!(log.entry(1).unwrap().sequence(), 2);
    assert!(log.entry(3).is_none());
    let newest: Vec<i64> = log.newest(2).iter().map(|e| e.sequence()).collect();
    assert_eq!(newest, vec![3, 2]);
    assert_eq!(log.newest(9).len(), 3);
    assert_eq!(log.newest(0).len(), 0);
    assert_eq!(log.append("d".to_string()), Ok(4));
    assert_eq!(log.len(), 4);
}

#[test]
fn log_is_cut_back_only_on_request() {
    let mut log = UndoLog::new();
    for text in ["a", "b", "c", "d", "e"] {
        log.append(text.to_string()).unwrap();
    }
    log.retain_newest(9);
    assert_eq!(log.len(), 5);
    log.retain_newest(5);
    assert_eq!(log.len(), 5);
    log.retain_newest(2);
    assert_eq!(log.len(), 2);
    assert_eq!(log.entry(0).unwrap().sequence(), 4);
    assert_eq!(log.entry(0).unwrap().statement(), "d");
    assert_eq!(log.entry(1).unwrap().sequence(), 5);
    assert_eq!(log.append("f".to_string()), Ok(6));
    log.retain_newest(0);
    assert_eq!(log.len(), 0);
    assert_eq!(log.append("g".to_string()), Ok(7));
    assert_eq!(
        retention_sql(100),
        "DELETE FROM undolog WHERE seq NOT IN (SELECT seq FROM undolog ORDER BY seq DESC LIMIT 100)"
    );
}

#[test]
fn errors_say_what_went_wrong() {
    assert_eq!(
        ConfigurationError::UnknownTable.message(),
        "the table is not enrolled in undo logging"
    );
    assert_eq!(
        ConfigurationError::InvalidSchema.message(),
        "the schema of the table is not well formed"
    );
    assert_eq!(
        ConfigurationError::StaleSchema.message(),
        "the live table does not have the recorded columns"
    );
    assert_eq!(StoreError::UnknownTable.message(), "the store holds no table of that name");
    assert_eq!(
        StoreError::ColumnMismatch.message(),
        "the values do not match the columns of the table"
    );
    assert_eq!(StoreError::DuplicateKey.message(), "the table holds a row of that key already");
    assert_eq!(StoreError::Malformed.message(), "the text is no inverse statement");
    assert_eq!(StoreError::LogFull.message(), LogFull.message());
    assert_eq!(
        ReplayError { sequence: 12, reason: StoreError::DuplicateKey }.message(),
        "log entry 12 could not be undone: the table holds a row of that key already"
    );
    assert_eq!(
        ImportError::Malformed("expected value at line 1 column 1".to_string()).message(),
        "the snapshot is not one JSON object: expected value at line 1 column 1"
    );
}

#[test]
fn migrations_set_up_log_tables_triggers_and_seeds() {
    let plan = migrations();
    assert_eq!(plan.len(), 15);
    let versions: Vec<i64> = plan.iter().map(|m| m.version).collect();
    assert_eq!(versions, vec![0, 1, 10, 2, 11, 3, 12, 4, 13, 5, 14, 6, 15, 200, 201]);
    assert!(plan.iter().all(|m| m.kind == MigrationKind::Up));
    assert_eq!(plan[0].description, "create_undolog_table");
    assert_eq!(plan[0].sql, UNDOLOG_TABLE_SQL);
    assert_eq!(plan[1].description, "create_table_buyers");
    assert_eq!(plan[1].sql, BUYERS_TABLE_SQL);
    assert_eq!(plan[2].description, "add_triggers_for_buyers");
    assert_eq!(plan[2].sql, triggers_for("buyers").unwrap());
    assert_eq!(plan[11].description, "create_table_settings");
    assert_eq!(plan[12].description, "add_triggers_for_settings");
    assert_eq!(plan[12].sql, triggers_for("settings").unwrap());
    assert_eq!(plan[13].description, "insert_tree_species_data");
    assert_eq!(plan[13].sql, SQL_STATEMENT_TREE_SPECIES);
    assert_eq!(plan[14].description, "insert_settings_data");
    assert_eq!(plan[14].sql, SQL_STATEMENT_SETTINGS);
}

#[test]
fn creation_sql_is_known_for_tracked_tables_only() {
    assert_eq!(table_creation_sql("buyers"), Ok(BUYERS_TABLE_SQL));
    assert!(table_creation_sql("wood_pieces").unwrap().contains("volume REAL AS"));
    assert_eq!(table_creation_sql("undolog"), Err(ConfigurationError::UnknownTable));
}

fn run_reset(species: i32, settings: i32) -> Vec<ResetAction> {
    let mut actions = Vec::new();
    let mut state = ResetState::Idle;
    let mut event = ResetEvent::Begin;
    loop {
        let (next, action) = reset_step(state, event).unwrap();
        actions.push(action);
        state = next;
        event = match action {
            ResetAction::Execute(_) => ResetEvent::Executed,
            ResetAction::Count(sql) => {
                if sql.contains("tree_species") {
                    ResetEvent::Counted(species)
                } else {
                    ResetEvent::Counted(settings)
                }
            }
            ResetAction::Done => break,
        };
    }
    assert_eq!(state, ResetState::Finished);
    actions
}

#[test]
fn reset_empties_children_first_and_keeps_the_seeds() {
    assert_eq!(
        run_reset(20, 1),
        vec![
            ResetAction::Execute("DELETE FROM wood_piece_offers;"),
            ResetAction::Execute("DELETE FROM wood_pieces;"),
            ResetAction::Execute("DELETE FROM sellers;"),
            ResetAction::Execute("DELETE FROM buyers;"),
            ResetAction::Count("SELECT COUNT(*) FROM tree_species;"),
            ResetAction::Count("SELECT COUNT(*) FROM settings;"),
            ResetAction::Done,
        ]
    );
}

#[test]
fn reset_fills_empty_seed_tables_again() {
    let actions = run_reset(0, 0);
    assert_eq!(actions.len(), 9);
    assert_eq!(actions[5], ResetAction::Execute(SQL_STATEMENT_TREE_SPECIES));
    assert_eq!(actions[7], ResetAction::Execute(SQL_STATEMENT_SETTINGS));
    let only_settings = run_reset(3, 0);
    assert_eq!(only_settings.len(), 8);
    assert_eq!(only_settings[6], ResetAction::Execute(SQL_STATEMENT_SETTINGS));
}

#[test]
fn reset_refuses_events_out_of_turn() {
    assert_eq!(reset_step(ResetState::Idle, ResetEvent::Executed), None);
    assert_eq!(reset_step(ResetState::Idle, ResetEvent::Counted(0)), None);
    assert_eq!(reset_step(ResetState::Emptying(0), ResetEvent::Begin), None);
    assert_eq!(reset_step(ResetState::Emptying(4), ResetEvent::Executed), None);
    assert_eq!(reset_step(ResetState::CountingSpecies, ResetEvent::Executed), None);
    assert_eq!(reset_step(ResetState::SeedingSettings, ResetEvent::Counted(1)), None);
    assert_eq!(reset_step(ResetState::Finished, ResetEvent::Begin), None);
}

#[test]
fn text_helpers() {
    assert!(same_text("abc", "abc"));
    assert!(!same_text("abc", "abd"));
    assert!(!same_text("abc", "ab"));
    assert_eq!(to_chars("čaj"), vec!['č', 'a', 'j']);
    assert_eq!(join_texts(&vec![], ", "), "");
    assert_eq!(join_texts(&vec!["a".to_string()], ", "), "a");
    assert_eq!(join_texts(&vec!["a".to_string(), "b".to_string(), "c".to_string()], ", "), "a, b, c");
}

#[test]
fn undo_session_asks_for_one_step_at_a_time() {
    let mut session = UndoSession::new(2);
    assert_eq!(session.phase(), UndoPhase::Idle);
    assert_eq!(session.step(UndoEvent::Done), UndoAction::Refused);
    assert_eq!(session.step(UndoEvent::Begin), UndoAction::Begin);
    assert_eq!(session.step(UndoEvent::Begin), UndoAction::Refused);
    assert_eq!(
        session.step(UndoEvent::Done),
        UndoAction::Fetch("SELECT seq, sql FROM undolog ORDER BY seq DESC LIMIT 2".to_string())
    );
    let entries = vec![
        LogEntry::new(9, "DELETE FROM buyers WHERE id=3".to_string()),
        LogEntry::new(7, "DELETE FROM buyers WHERE id=2".to_string()),
    ];
    assert_eq!(
        session.step(UndoEvent::Fetched(entries)),
        UndoAction::Execute("DELETE FROM buyers WHERE id=3".to_string())
    );
    assert_eq!(
        session.step(UndoEvent::Done),
        UndoAction::Execute("DELETE FROM buyers WHERE id=2".to_string())
    );
    assert_eq!(
        session.step(UndoEvent::Done),
        UndoAction::Execute("DELETE FROM undolog WHERE seq>=7".to_string())
    );
    assert_eq!(session.step(UndoEvent::Done), UndoAction::Commit);
    assert_eq!(session.step(UndoEvent::Done), UndoAction::Complete(2));
    assert_eq!(session.phase(), UndoPhase::Finished);
    assert_eq!(session.step(UndoEvent::Begin), UndoAction::Refused);
}

#[test]
fn undo_session_names_the_entry_that_failed() {
    let mut session = UndoSession::new(5);
    session.step(UndoEvent::Begin);
    session.step(UndoEvent::Done);
    let entries = vec![
        LogEntry::new(9, "a".to_string()),
        LogEntry::new(7, "b".to_string()),
        LogEntry::new(4, "c".to_string()),
    ];
    session.step(UndoEvent::Fetched(entries));
    session.step(UndoEvent::Done);
    assert_eq!(session.step(UndoEvent::Failed), UndoAction::Rollback);
    assert_eq!(session.step(UndoEvent::Done), UndoAction::Failed(Some(7)));
    let mut unopened = UndoSession::new(1);
    unopened.step(UndoEvent::Begin);
    assert_eq!(unopened.step(UndoEvent::Failed), UndoAction::Failed(None));
    let mut empty = UndoSession::new(1);
    empty.step(UndoEvent::Begin);
    empty.step(UndoEvent::Done);
    assert_eq!(empty.step(UndoEvent::Fetched(vec![])), UndoAction::Commit);
    assert_eq!(empty.step(UndoEvent::Failed), UndoAction::Rollback);
    assert_eq!(empty.step(UndoEvent::Failed), UndoAction::Failed(None));
}

#[test]
fn the_store_is_one_file() {
    assert_eq!(DATABASE_FILE, "main_database_v10.db");
    assert_eq!(database_url(), "sqlite:main_database_v10.db");
    assert_eq!(
        live_columns_query(&licitacija::schema::find_table("settings").unwrap()),
        "SELECT name FROM pragma_table_info('settings') ORDER BY cid"
    );
}
