use licitacija::parse::{parse_statement, parse_value};
use licitacija::schema::{find_table, TrackedTable};
use licitacija::statement::{InverseStatement, StatementKind};
use licitacija::value::{quoted, Decimal, SqlValue};

fn text(s: &str) -> SqlValue {
    SqlValue::Text(s.to_string())
}

fn number(s: &str) -> SqlValue {
    SqlValue::Real(Decimal::parse(s).unwrap())
}

fn notes() -> TrackedTable {
    TrackedTable::new("notes", vec!["title".to_string(), "weight".to_string()]).unwrap()
}

#[test]
fn quote_writes_values_as_the_database_does() {
    assert_eq!(quoted(&SqlValue::Null), "NULL");
    assert_eq!(quoted(&SqlValue::Integer(0)), "0");
    assert_eq!(quoted(&SqlValue::Integer(42)), "42");
    assert_eq!(quoted(&SqlValue::Integer(-7)), "-7");
    assert_eq!(quoted(&SqlValue::Integer(i64::MAX)), "9223372036854775807");
    assert_eq!(quoted(&SqlValue::Integer(i64::MIN)), "-9223372036854775808");
    assert_eq!(quoted(&number("-0.06")), "-0.06");
    assert_eq!(quoted(&number("5.0")), "5.0");
    assert_eq!(quoted(&text("")), "''");
    assert_eq!(quoted(&text("5 Elm St")), "'5 Elm St'");
    assert_eq!(quoted(&text("O'Brien")), "'O''Brien'");
    assert_eq!(quoted(&text("''")), "''''''");
    assert_eq!(quoted(&text("NULL")), "'NULL'");
}

#[test]
fn quoted_values_are_read_back_exactly() {
    let values = vec![
        SqlValue::Null,
        SqlValue::Integer(0),
        SqlValue::Integer(-1),
        SqlValue::Integer(1000000),
        SqlValue::Integer(i64::MAX),
        SqlValue::Integer(i64::MIN),
        number("-0.06"),
        number("22.0"),
        number("1e21"),
        number("1.5e-7"),
        number("1.0e+21"),
        text(""),
        text("O'Brien"),
        text("'"),
        text("a', 'b"),
        text("x'); DROP TABLE buyers; --"),
        text("NULL"),
        text("12"),
        text("Divja češnja"),
        text("line\nbreak"),
    ];
    for value in values {
        assert_eq!(parse_value(&quoted(&value)), Some(value));
    }
}

#[test]
fn what_is_no_value_is_not_read_as_one() {
    assert_eq!(parse_value(""), None);
    assert_eq!(parse_value("'open"), None);
    assert_eq!(parse_value("'a'b'"), None);
    assert_eq!(parse_value("12 "), None);
    assert_eq!(parse_value("-"), None);
    assert_eq!(parse_value("9223372036854775808"), None);
    assert_eq!(parse_value("-9223372036854775809"), None);
    assert_eq!(parse_value("99999999999999999999999999"), None);
    assert_eq!(parse_value("null"), None);
    assert_eq!(parse_value("NULLS"), None);
    assert_eq!(parse_value("1.5.2"), None);
}

#[test]
fn decimal_numerals_need_a_fraction_or_an_exponent() {
    assert!(Decimal::parse("5.0").is_some());
    assert!(Decimal::parse("-0.06").is_some());
    assert!(Decimal::parse("1e21").is_some());
    assert!(Decimal::parse("2.5E-3").is_some());
    assert_eq!(Decimal::parse("5"), None);
    assert_eq!(Decimal::parse("5."), None);
    assert_eq!(Decimal::parse(".5"), None);
    assert_eq!(Decimal::parse("-"), None);
    assert_eq!(Decimal::parse("1e"), None);
    assert_eq!(Decimal::parse("abc"), None);
    assert_eq!(Decimal::parse("NaN"), None);
    assert_eq!(Decimal::from_number("5").unwrap().as_str(), "5.0");
    assert_eq!(Decimal::from_number("-12").unwrap().as_str(), "-12.0");
    assert_eq!(Decimal::from_number("0.06").unwrap().as_str(), "0.06");
    assert_eq!(Decimal::from_number("1e21").unwrap().as_str(), "1e21");
    assert_eq!(Decimal::from_number("inf"), None);
}

#[test]
fn inverse_of_insert_is_a_delete() {
    let statement = InverseStatement::undo_insert(&notes(), 5);
    assert_eq!(statement.kind(), StatementKind::Delete);
    assert_eq!(statement.table(), "notes");
    assert_eq!(statement.key(), 5);
    assert!(statement.columns().is_empty());
    assert_eq!(statement.to_sql(), "DELETE FROM notes WHERE id=5");
}

#[test]
fn inverse_of_delete_is_an_insert_with_the_key() {
    let old = vec![text("O'Brien"), number("-0.5")];
    let statement = InverseStatement::undo_delete(&notes(), -3, &old).unwrap();
    assert_eq!(statement.kind(), StatementKind::Insert);
    assert_eq!(statement.values(), &old);
    assert_eq!(
        statement.to_sql(),
        "INSERT INTO notes (id, title, weight) VALUES (-3, 'O''Brien', -0.5);"
    );
    assert_eq!(InverseStatement::undo_delete(&notes(), 1, &vec![SqlValue::Null]), None);
}

#[test]
fn inverse_of_update_sets_every_column_back() {
    let old = vec![SqlValue::Null, SqlValue::Integer(12)];
    let statement = InverseStatement::undo_update(&notes(), 8, &old).unwrap();
    assert_eq!(statement.kind(), StatementKind::Update);
    assert_eq!(statement.to_sql(), "UPDATE notes SET title=NULL, weight=12 WHERE id=8");
    assert_eq!(InverseStatement::undo_update(&notes(), 1, &vec![]), None);
}

#[test]
fn statements_are_read_back_from_their_text() {
    let tricky = vec![
        vec![text("plain"), SqlValue::Integer(1)],
        vec![text("O'Brien"), SqlValue::Null],
        vec![text("a, b) VALUES (1, 'x');"), number("0.06")],
        vec![text("' WHERE id=1"), SqlValue::Integer(-9)],
        vec![text(", weight='"), text("=")],
        vec![text(""), text("''")],
        vec![SqlValue::Null, SqlValue::Null],
    ];
    for old in tricky {
        let insert = InverseStatement::undo_delete(&notes(), 4, &old).unwrap();
        assert_eq!(parse_statement(&insert.to_sql()), Some(insert.clone()));
        let update = InverseStatement::undo_update(&notes(), 4, &old).unwrap();
        assert_eq!(parse_statement(&update.to_sql()), Some(update.clone()));
    }
    let delete = InverseStatement::undo_insert(&notes(), i64::MIN);
    assert_eq!(parse_statement(&delete.to_sql()), Some(delete));
}

#[test]
fn statements_of_every_tracked_table_are_read_back() {
    for name in ["buyers", "sellers", "tree_species", "wood_pieces", "wood_piece_offers", "settings"] {
        let table = find_table(name).unwrap();
        let old: Vec<SqlValue> = table
            .columns()
            .iter()
            .enumerate()
            .map(|(i, c)| if i % 2 == 0 { text(c) } else { SqlValue::Integer(i as i64) })
            .collect();
        let insert = InverseStatement::undo_delete(&table, 1, &old).unwrap();
        let parsed = parse_statement(&insert.to_sql()).unwrap();
        assert_eq!(parsed.table(), name);
        assert_eq!(parsed.columns(), table.columns());
        assert_eq!(parsed.values(), &old);
    }
}

#[test]
fn only_texts_of_statements_are_read_as_statements() {
    assert_eq!(parse_statement(""), None);
    assert_eq!(parse_statement("DROP TABLE buyers"), None);
    assert_eq!(parse_statement("DELETE FROM notes"), None);
    assert_eq!(parse_statement("DELETE FROM notes WHERE id=1;"), None);
    assert_eq!(parse_statement("DELETE FROM notes WHERE id=01"), None);
    assert_eq!(parse_statement("DELETE FROM notes WHERE id=-0"), None);
    assert_eq!(parse_statement("DELETE FROM notes WHERE id=1 OR 1=1"), None);
    assert_eq!(parse_statement("DELETE FROM no tes WHERE id=1"), None);
    assert_eq!(parse_statement("DELETE FROM 9notes WHERE id=1"), None);
    assert_eq!(parse_statement("delete from notes where id=1"), None);
    assert_eq!(parse_statement("INSERT INTO notes (id) VALUES (1);"), None);
    assert_eq!(parse_statement("INSERT INTO notes (id, title) VALUES (1);"), None);
    assert_eq!(parse_statement("INSERT INTO notes (id, title) VALUES (1, 'a', 'b');"), None);
    assert_eq!(parse_statement("INSERT INTO notes (id, id) VALUES (1, 2);"), None);
    assert_eq!(parse_statement("INSERT INTO notes (id, title) VALUES (1, 'a'); DELETE FROM notes"), None);
    assert_eq!(parse_statement("INSERT INTO notes (id, title) VALUES (1, 'a')"), None);
    assert_eq!(parse_statement("UPDATE notes SET  WHERE id=1"), None);
    assert_eq!(parse_statement("UPDATE notes SET title='a' WHERE id='1'"), None);
    assert_eq!(parse_statement("UPDATE notes SET title='a',weight=1 WHERE id=1"), None);
    assert_eq!(parse_statement("UPDATE notes SET id=2 WHERE id=1"), None);
}

#[test]
fn new_checks_every_part() {
    let made = InverseStatement::new(
        StatementKind::Insert,
        "notes",
        1,
        vec!["title".to_string()],
        vec![text("x")],
    )
    .unwrap();
    assert_eq!(made.to_sql(), "INSERT INTO notes (id, title) VALUES (1, 'x');");
    assert_eq!(
        InverseStatement::new(StatementKind::Insert, "notes", 1, vec!["title".to_string()], vec![]),
        None
    );
    assert_eq!(
        InverseStatement::new(StatementKind::Update, "no'tes", 1, vec!["title".to_string()], vec![text("x")]),
        None
    );
    assert_eq!(
        InverseStatement::new(StatementKind::Delete, "notes", 1, vec!["title".to_string()], vec![text("x")]),
        None
    );
    assert_eq!(
        InverseStatement::new(StatementKind::Delete, "notes", 1, vec![], vec![]).unwrap().to_sql(),
        "DELETE FROM notes WHERE id=1"
    );
}
