use licitacija::schema::{find_table, ConfigurationError, TrackedTable};
use licitacija::template::{
    delete_key_template, get_delete_insert_statements, get_update_set_statements,
    insert_replay_template, update_set_template, Segment,
};
use licitacija::trigger::{trigger_sql, triggers_for};
use licitacija::value::{Decimal, SqlValue};

fn offers() -> TrackedTable {
    find_table("wood_piece_offers").unwrap()
}

#[test]
fn update_set_statements_quote_every_old_value() {
    assert_eq!(
        get_update_set_statements("wood_piece_offers").unwrap(),
        "offered_price=' || quote(OLD.offered_price) || ', wood_piece_id=' || quote(OLD.wood_piece_id) || ', buyer_id=' || quote(OLD.buyer_id) || '"
    );
    assert_eq!(
        get_update_set_statements("settings").unwrap(),
        "licitator_fixed_cost=' || quote(OLD.licitator_fixed_cost) || ', licitator_percentage=' || quote(OLD.licitator_percentage) || ', bundle_cost=' || quote(OLD.bundle_cost) || '"
    );
    assert_eq!(get_update_set_statements("nothing"), Err(ConfigurationError::UnknownTable));
}

#[test]
fn delete_insert_statements_quote_every_old_value() {
    assert_eq!(
        get_delete_insert_statements("tree_species").unwrap(),
        "' || quote(OLD.tree_species_name) || ', ' || quote(OLD.latin_name) || ', ' || quote(OLD.tree_species_name_slo) || '"
    );
    assert_eq!(get_delete_insert_statements("nothing"), Err(ConfigurationError::UnknownTable));
}

#[test]
fn delete_key_template_logs_a_delete_by_key() {
    let template = delete_key_template(&offers());
    assert_eq!(
        template.expression(),
        "'DELETE FROM wood_piece_offers WHERE id=' || quote(NEW.id)"
    );
    assert_eq!(
        template.segments(),
        &vec![
            Segment::Literal("DELETE FROM wood_piece_offers WHERE id=".to_string()),
            Segment::NewKey
        ]
    );
    let values = vec![SqlValue::Null, SqlValue::Integer(1), SqlValue::Integer(2)];
    assert_eq!(
        template.evaluate(0, &values, 17).unwrap(),
        "DELETE FROM wood_piece_offers WHERE id=17"
    );
}

#[test]
fn update_set_template_matches_the_fragments() {
    let template = update_set_template(&offers());
    let expected = format!(
        "'UPDATE wood_piece_offers SET {} WHERE id=' || quote(OLD.id)",
        get_update_set_statements("wood_piece_offers").unwrap()
    );
    assert_eq!(template.expression(), expected);
}

#[test]
fn insert_replay_template_matches_the_fragments() {
    let template = insert_replay_template(&offers());
    let expected = format!(
        "'INSERT INTO wood_piece_offers (id, {}) VALUES (' || quote(OLD.id) || ', {});'",
        licitacija::schema::get_column_names("wood_piece_offers").unwrap(),
        get_delete_insert_statements("wood_piece_offers").unwrap()
    );
    assert_eq!(template.expression(), expected);
}

#[test]
fn templates_keep_names_and_values_in_the_same_order() {
    let values = vec![
        SqlValue::Real(Decimal::parse("12.5").unwrap()),
        SqlValue::Integer(7),
        SqlValue::Null,
    ];
    assert_eq!(
        insert_replay_template(&offers()).evaluate(3, &values, 3).unwrap(),
        "INSERT INTO wood_piece_offers (id, offered_price, wood_piece_id, buyer_id) VALUES (3, 12.5, 7, NULL);"
    );
    assert_eq!(
        update_set_template(&offers()).evaluate(3, &values, 3).unwrap(),
        "UPDATE wood_piece_offers SET offered_price=12.5, wood_piece_id=7, buyer_id=NULL WHERE id=3"
    );
}

#[test]
fn evaluation_needs_one_value_for_each_column() {
    let values = vec![SqlValue::Integer(7)];
    assert_eq!(update_set_template(&offers()).evaluate(3, &values, 3), None);
    assert_eq!(insert_replay_template(&offers()).evaluate(3, &vec![], 3), None);
}

#[test]
fn trigger_sql_creates_three_triggers_if_they_do_not_exist() {
    let sql = trigger_sql(&offers());
    assert_eq!(sql.matches("CREATE TRIGGER IF NOT EXISTS ").count(), 3);
    assert!(sql.contains("CREATE TRIGGER IF NOT EXISTS wood_piece_offers_insert AFTER INSERT ON wood_piece_offers\n"));
    assert!(sql.contains("CREATE TRIGGER IF NOT EXISTS wood_piece_offers_delete AFTER DELETE ON wood_piece_offers\n"));
    assert!(sql.contains("CREATE TRIGGER IF NOT EXISTS wood_piece_offers_update AFTER UPDATE ON wood_piece_offers\n"));
    assert_eq!(sql.matches("INSERT INTO undolog (sql) VALUES (").count(), 3);
    assert!(sql.contains(&delete_key_template(&offers()).expression()));
    assert!(sql.contains(&insert_replay_template(&offers()).expression()));
    assert!(sql.contains(&update_set_template(&offers()).expression()));
}

#[test]
fn trigger_sql_of_one_table_in_full() {
    let table = TrackedTable::new("notes", vec!["title".to_string()]).unwrap();
    assert_eq!(
        trigger_sql(&table),
        "-- INSERT Trigger\n\
CREATE TRIGGER IF NOT EXISTS notes_insert AFTER INSERT ON notes\n\
BEGIN\n    INSERT INTO undolog (sql) VALUES (\n        'DELETE FROM notes WHERE id=' || quote(NEW.id)\n    );\nEND;\n\
\n\
-- DELETE Trigger\n\
CREATE TRIGGER IF NOT EXISTS notes_delete AFTER DELETE ON notes\n\
BEGIN\n    INSERT INTO undolog (sql) VALUES (\n        'INSERT INTO notes (id, title) VALUES (' || quote(OLD.id) || ', ' || quote(OLD.title) || ');'\n    );\nEND;\n\
\n\
-- UPDATE Trigger\n\
CREATE TRIGGER IF NOT EXISTS notes_update AFTER UPDATE ON notes\n\
BEGIN\n    INSERT INTO undolog (sql) VALUES (\n        'UPDATE notes SET title=' || quote(OLD.title) || ' WHERE id=' || quote(OLD.id)\n    );\nEND;\n"
    );
}

#[test]
fn no_trigger_for_an_unknown_table() {
    assert_eq!(triggers_for("images"), Err(ConfigurationError::UnknownTable));
    assert_eq!(triggers_for("buyers").unwrap(), trigger_sql(&find_table("buyers").unwrap()));
}
