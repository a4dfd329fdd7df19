use licitacija::export::{
    columns_to_export, export_cell, export_query, export_snapshot, export_tables, export_to_json,
    ExportError, StoredValue, TableDump,
};
use licitacija::import::{
    bind, entry_of, import_from_json, plan_import, ImportAction, ImportError, ImportEvent,
    ImportPhase, ImportSession, ImportStep,
};
use licitacija::json::{Cell, Row, Rows, Snapshot};
use licitacija::parse::parse_integer;
use licitacija::schema::ConfigurationError;
use licitacija::value::{Decimal, SqlValue};

fn text(s: &str) -> SqlValue {
    SqlValue::Text(s.to_string())
}

fn number(s: &str) -> SqlValue {
    SqlValue::Real(Decimal::parse(s).unwrap())
}

#[test]
fn snapshot_is_read_from_json() {
    let plan = import_from_json(
        r#"{"x": "y", "buyers": [{"id": 1, "buyer_name": "O'Brien", "ident": null, "ok": true}, 5]}"#,
    )
    .unwrap();
    assert_eq!(
        plan,
        vec![
            ImportStep::Truncate { table: "buyers".to_string() },
            ImportStep::Insert {
                table: "buyers".to_string(),
                columns: vec![
                    "buyer_name".to_string(),
                    "id".to_string(),
                    "ident".to_string(),
                    "ok".to_string()
                ],
                values: vec![text("O'Brien"), SqlValue::Integer(1), SqlValue::Null, SqlValue::Null],
            },
        ]
    );
}

#[test]
fn numbers_keep_their_numerals() {
    let plan =
        import_from_json(r#"{"settings": [{"a": 0.06, "b": -5, "c": 1e21, "d": 22.0}]}"#).unwrap();
    assert_eq!(
        plan[1],
        ImportStep::Insert {
            table: "settings".to_string(),
            columns: vec!["a".to_string(), "b".to_string(), "c".to_string(), "d".to_string()],
            values: vec![number("0.06"), SqlValue::Integer(-5), number("1e+21"), number("22.0")],
        }
    );
}

#[test]
fn malformed_json_is_refused() {
    assert!(matches!(import_from_json(""), Err(ImportError::Malformed(_))));
    assert!(matches!(import_from_json("[1, 2]"), Err(ImportError::Malformed(_))));
    assert!(matches!(import_from_json("{\"buyers\": ["), Err(ImportError::Malformed(_))));
    assert!(matches!(import_from_json("not json"), Err(ImportError::Malformed(_))));
    assert!(matches!(import_from_json("42"), Err(ImportError::Malformed(_))));
    match import_from_json("{") {
        Err(ImportError::Malformed(message)) => assert!(message.contains("line 1")),
        Ok(_) => panic!("a lone brace is no object"),
    }
}

#[test]
fn cells_are_bound_as_text_real_or_null() {
    assert_eq!(bind(&Cell::Text("a".to_string())), text("a"));
    assert_eq!(bind(&Cell::Number("5".to_string())), SqlValue::Integer(5));
    assert_eq!(bind(&Cell::Number("-12".to_string())), SqlValue::Integer(-12));
    assert_eq!(bind(&Cell::Number("0".to_string())), SqlValue::Integer(0));
    assert_eq!(
        bind(&Cell::Number("9007199254740993".to_string())),
        SqlValue::Integer(9007199254740993)
    );
    assert_eq!(
        bind(&Cell::Number("9223372036854775807".to_string())),
        SqlValue::Integer(i64::MAX)
    );
    assert_eq!(
        bind(&Cell::Number("-9223372036854775808".to_string())),
        SqlValue::Integer(i64::MIN)
    );
    assert_eq!(
        bind(&Cell::Number("9223372036854775808".to_string())),
        number("9223372036854775808.0")
    );
    assert_eq!(
        bind(&Cell::Number("18446744073709551615".to_string())),
        number("18446744073709551615.0")
    );
    assert_eq!(bind(&Cell::Number("5.0".to_string())), number("5.0"));
    assert_eq!(bind(&Cell::Number("-0.06".to_string())), number("-0.06"));
    assert_eq!(bind(&Cell::Number("1e21".to_string())), number("1e21"));
    assert_eq!(bind(&Cell::Number("junk".to_string())), SqlValue::Null);
    assert_eq!(bind(&Cell::Null), SqlValue::Null);
    assert_eq!(bind(&Cell::Other), SqlValue::Null);
}

#[test]
fn import_empties_children_first_and_fills_parents_first() {
    let plan = import_from_json(
        r#"{
            "wood_piece_offers": [{"id": 1, "buyer_id": 1}],
            "buyers": [{"id": 1, "buyer_name": "A"}, {"id": 2, "buyer_name": "B"}],
            "settings": [],
            "tree_species": 5,
            "images": [{"id": 1}]
        }"#,
    )
    .unwrap();
    let sql: Vec<String> = plan.iter().map(|s| s.sql()).collect();
    assert_eq!(
        sql,
        vec![
            "DELETE FROM wood_piece_offers;",
            "DELETE FROM tree_species;",
            "DELETE FROM buyers;",
            "DELETE FROM settings;",
            "INSERT INTO buyers (buyer_name, id) VALUES (?, ?);",
            "INSERT INTO buyers (buyer_name, id) VALUES (?, ?);",
            "INSERT INTO wood_piece_offers (buyer_id, id) VALUES (?, ?);",
        ]
    );
    assert_eq!(
        plan[4],
        ImportStep::Insert {
            table: "buyers".to_string(),
            columns: vec!["buyer_name".to_string(), "id".to_string()],
            values: vec![text("A"), SqlValue::Integer(1)],
        }
    );
    assert_eq!(plan[0], ImportStep::Truncate { table: "wood_piece_offers".to_string() });
}

#[test]
fn rows_that_are_no_objects_are_left_out() {
    let snapshot = Snapshot {
        tables: vec![(
            "sellers".to_string(),
            Rows::Listed(vec![
                Row::Other,
                Row::Columns(vec![("iban".to_string(), Cell::Null)]),
                Row::Columns(vec![]),
            ]),
        )],
    };
    let plan = plan_import(&snapshot);
    let sql: Vec<String> = plan.iter().map(|s| s.sql()).collect();
    assert_eq!(
        sql,
        vec![
            "DELETE FROM sellers;",
            "INSERT INTO sellers (iban) VALUES (?);",
            "INSERT INTO sellers () VALUES ();",
        ]
    );
    assert!(entry_of(&snapshot, "sellers").is_some());
    assert!(entry_of(&snapshot, "buyers").is_none());
    assert_eq!(plan_import(&Snapshot { tables: vec![] }), vec![]);
}

#[test]
fn export_queries_read_the_exported_columns() {
    assert_eq!(
        export_tables(),
        vec!["buyers", "sellers", "tree_species", "wood_pieces", "wood_piece_offers", "settings"]
    );
    assert_eq!(
        export_query("wood_piece_offers").unwrap(),
        "SELECT id, offered_price, wood_piece_id, buyer_id FROM wood_piece_offers"
    );
    assert_eq!(
        export_query("wood_pieces").unwrap(),
        "SELECT id, length, sequence_no, width, plate_no, seller_id, tree_species_id, min_price, bypass_min_price FROM wood_pieces"
    );
    assert_eq!(export_query("undolog"), Err(ConfigurationError::UnknownTable));
    assert_eq!(columns_to_export("settings").unwrap().len(), 4);
}

#[test]
fn stored_values_become_cells() {
    assert_eq!(export_cell(&StoredValue::Null), Cell::Null);
    assert_eq!(export_cell(&StoredValue::Integer(-12)), Cell::Number("-12".to_string()));
    assert_eq!(
        export_cell(&StoredValue::Real(Decimal::parse("0.06").unwrap())),
        Cell::Number("0.06".to_string())
    );
    assert_eq!(export_cell(&StoredValue::Text("a".to_string())), Cell::Text("a".to_string()));
    assert_eq!(export_cell(&StoredValue::Blob), Cell::Text("BLOB data not supported".to_string()));
}

fn offers_dump() -> Vec<TableDump> {
    vec![TableDump {
        name: "wood_piece_offers".to_string(),
        rows: vec![
            vec![
                StoredValue::Integer(1),
                StoredValue::Real(Decimal::parse("12.5").unwrap()),
                StoredValue::Integer(7),
                StoredValue::Null,
            ],
            vec![
                StoredValue::Integer(3),
                StoredValue::Real(Decimal::parse("5.0").unwrap()),
                StoredValue::Text("O'Brien \"x\"".to_string()),
                StoredValue::Blob,
            ],
        ],
    }]
}

#[test]
fn export_pairs_values_with_column_names() {
    let snapshot = export_snapshot(&offers_dump()).unwrap();
    assert_eq!(snapshot.tables.len(), 1);
    assert_eq!(snapshot.tables[0].0, "wood_piece_offers");
    assert_eq!(
        snapshot.tables[0].1,
        Rows::Listed(vec![
            Row::Columns(vec![
                ("id".to_string(), Cell::Number("1".to_string())),
                ("offered_price".to_string(), Cell::Number("12.5".to_string())),
                ("wood_piece_id".to_string(), Cell::Number("7".to_string())),
                ("buyer_id".to_string(), Cell::Null),
            ]),
            Row::Columns(vec![
                ("id".to_string(), Cell::Number("3".to_string())),
                ("offered_price".to_string(), Cell::Number("5.0".to_string())),
                ("wood_piece_id".to_string(), Cell::Text("O'Brien \"x\"".to_string())),
                ("buyer_id".to_string(), Cell::Text("BLOB data not supported".to_string())),
            ]),
        ])
    );
}

#[test]
fn export_writes_pretty_json() {
    let json = export_to_json(&offers_dump()).unwrap();
    assert_eq!(
        json,
        "{\n  \"wood_piece_offers\": [\n    {\n      \"buyer_id\": null,\n      \"id\": 1,\n      \"offered_price\": 12.5,\n      \"wood_piece_id\": 7\n    },\n    {\n      \"buyer_id\": \"BLOB data not supported\",\n      \"id\": 3,\n      \"offered_price\": 5.0,\n      \"wood_piece_id\": \"O'Brien \\\"x\\\"\"\n    }\n  ]\n}"
    );
    assert_eq!(export_to_json(&vec![]).unwrap(), "{}");
    let unknown = vec![TableDump { name: "images".to_string(), rows: vec![] }];
    assert_eq!(export_to_json(&unknown), Err(ExportError::UnknownTable));
    assert_eq!(export_snapshot(&unknown), Err(ExportError::UnknownTable));
}

#[test]
fn export_leaves_no_row_out() {
    let mut short = offers_dump();
    short[0].rows.insert(1, vec![StoredValue::Integer(2)]);
    assert_eq!(export_snapshot(&short), Err(ExportError::RowLength));
    assert_eq!(export_to_json(&short), Err(ExportError::RowLength));
    let mut long = offers_dump();
    long[0].rows[0].push(StoredValue::Null);
    assert_eq!(export_snapshot(&long), Err(ExportError::RowLength));
    // what is wrong with the first faulty dump decides
    let unknown = TableDump { name: "images".to_string(), rows: vec![] };
    let mut both = offers_dump();
    both.push(TableDump { name: "images".to_string(), rows: vec![] });
    assert_eq!(export_snapshot(&both), Err(ExportError::UnknownTable));
    both[0].rows[0].pop();
    assert_eq!(export_snapshot(&both), Err(ExportError::RowLength));
    both.insert(0, unknown);
    assert_eq!(export_snapshot(&both), Err(ExportError::UnknownTable));
    assert_eq!(
        ExportError::RowLength.message(),
        "a row does not hold one value for each exported column"
    );
    assert_eq!(ExportError::UnknownTable.message(), "the table is not enrolled in undo logging");
}

#[test]
fn exported_json_is_read_back_for_import() {
    let json = export_to_json(&offers_dump()).unwrap();
    let plan = import_from_json(&json).unwrap();
    assert_eq!(plan.len(), 3);
    assert_eq!(plan[0].sql(), "DELETE FROM wood_piece_offers;");
    assert_eq!(
        plan[1],
        ImportStep::Insert {
            table: "wood_piece_offers".to_string(),
            columns: vec![
                "buyer_id".to_string(),
                "id".to_string(),
                "offered_price".to_string(),
                "wood_piece_id".to_string()
            ],
            values: vec![SqlValue::Null, SqlValue::Integer(1), number("12.5"), SqlValue::Integer(7)],
        }
    );
}

#[test]
fn integer_numerals_are_read_as_integers() {
    assert_eq!(parse_integer("0"), Some(0));
    assert_eq!(parse_integer("-7"), Some(-7));
    assert_eq!(parse_integer("007"), Some(7));
    assert_eq!(parse_integer("9007199254740993"), Some(9007199254740993));
    assert_eq!(parse_integer("9223372036854775807"), Some(i64::MAX));
    assert_eq!(parse_integer("-9223372036854775808"), Some(i64::MIN));
    assert_eq!(parse_integer("9223372036854775808"), None);
    assert_eq!(parse_integer("-9223372036854775809"), None);
    assert_eq!(parse_integer("99999999999999999999999"), None);
    assert_eq!(parse_integer(""), None);
    assert_eq!(parse_integer("-"), None);
    assert_eq!(parse_integer("5.0"), None);
    assert_eq!(parse_integer("1e3"), None);
    assert_eq!(parse_integer("+5"), None);
    assert_eq!(parse_integer(" 5"), None);
}

fn two_buyers() -> ImportSession {
    ImportSession::from_json(r#"{"buyers": [{"id": 1, "buyer_name": "A"}, {"id": 2}]}"#).unwrap()
}

#[test]
fn import_session_runs_the_steps_in_one_transaction() {
    let mut session = two_buyers();
    assert_eq!(session.phase(), ImportPhase::Idle);
    assert_eq!(session.step(ImportEvent::Done), ImportAction::Refused);
    assert_eq!(session.step(ImportEvent::Begin), ImportAction::Begin);
    assert_eq!(session.step(ImportEvent::Begin), ImportAction::Refused);
    assert_eq!(
        session.step(ImportEvent::Done),
        ImportAction::Execute { sql: "DELETE FROM buyers;".to_string(), values: vec![] }
    );
    assert_eq!(
        session.step(ImportEvent::Done),
        ImportAction::Execute {
            sql: "INSERT INTO buyers (buyer_name, id) VALUES (?, ?);".to_string(),
            values: vec![text("A"), SqlValue::Integer(1)],
        }
    );
    assert_eq!(
        session.step(ImportEvent::Done),
        ImportAction::Execute {
            sql: "INSERT INTO buyers (id) VALUES (?);".to_string(),
            values: vec![SqlValue::Integer(2)],
        }
    );
    assert_eq!(session.step(ImportEvent::Done), ImportAction::Commit);
    assert_eq!(session.step(ImportEvent::Done), ImportAction::Complete(3));
    assert_eq!(session.phase(), ImportPhase::Finished);
    assert_eq!(session.step(ImportEvent::Begin), ImportAction::Refused);
}

#[test]
fn import_session_rolls_back_at_the_first_failure() {
    let mut session = two_buyers();
    session.step(ImportEvent::Begin);
    session.step(ImportEvent::Done);
    session.step(ImportEvent::Done);
    assert_eq!(session.step(ImportEvent::Failed), ImportAction::Rollback);
    assert_eq!(session.phase(), ImportPhase::RollingBack);
    assert_eq!(session.step(ImportEvent::Begin), ImportAction::Refused);
    assert_eq!(session.step(ImportEvent::Done), ImportAction::Failed(Some(1)));
    assert_eq!(session.step(ImportEvent::Done), ImportAction::Refused);

    let mut unopened = two_buyers();
    unopened.step(ImportEvent::Begin);
    assert_eq!(unopened.step(ImportEvent::Failed), ImportAction::Failed(None));

    let mut uncommitted = ImportSession::new(vec![]);
    uncommitted.step(ImportEvent::Begin);
    assert_eq!(uncommitted.step(ImportEvent::Done), ImportAction::Commit);
    assert_eq!(uncommitted.step(ImportEvent::Failed), ImportAction::Rollback);
    assert_eq!(uncommitted.step(ImportEvent::Failed), ImportAction::Failed(None));

    let mut empty = ImportSession::new(vec![]);
    empty.step(ImportEvent::Begin);
    empty.step(ImportEvent::Done);
    assert_eq!(empty.step(ImportEvent::Done), ImportAction::Complete(0));
    assert!(matches!(ImportSession::from_json("[]"), Err(ImportError::Malformed(_))));
}
