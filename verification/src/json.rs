//! Snapshots of the tables as JSON.
//!
//! A snapshot is one JSON object. Its keys are table names; under each name
//! stands an array of rows, and each row is an object from column names to
//! values. Reading and writing the JSON text is left to `serde_json`; what
//! this module holds is the shape of a snapshot as plain data.

use vstd::prelude::*;
use serde_json::Value;

verus! {

/// One value of a row in a snapshot.
#[derive(Debug, Clone, PartialEq, Eq)]
pub enum Cell {
    /// The JSON `null`.
    Null,
    /// A number, by its numeral.
    Number(String),
    /// A string.
    Text(String),
    /// A boolean, an array or an object.
    Other,
}

/// One element of a table's array in a snapshot.
#[derive(Debug, Clone, PartialEq, Eq)]
pub enum Row {
    /// An object: its keys with their values, in the order in which the
    /// object yields them.
    Columns(Vec<(String, Cell)>),
    /// Anything that is not an object.
    Other,
}

/// What stands under one key of a snapshot.
#[derive(Debug, Clone, PartialEq, Eq)]
pub enum Rows {
    /// An array, element by element.
    Listed(Vec<Row>),
    /// Anything that is not an array.
    Other,
}

/// A snapshot: the keys of the JSON object with what stands under them, in
/// the order in which the object yields them.
#[derive(Debug, Clone, PartialEq, Eq)]
pub struct Snapshot {
    pub tables: Vec<(String, Rows)>,
}

/// A value of a row, as a mathematical value.
pub enum CellModel {
    Null,
    Number(Seq<char>),
    Text(Seq<char>),
    Other,
}

/// An element of a table's array, as a mathematical value.
pub enum RowModel {
    Columns(Seq<(Seq<char>, CellModel)>),
    Other,
}

/// What stands under a key of a snapshot, as a mathematical value.
pub enum RowsModel {
    Listed(Seq<RowModel>),
    Other,
}

/// A snapshot, as a mathematical value.
pub struct SnapshotModel {
    pub tables: Seq<(Seq<char>, RowsModel)>,
}

impl View for Cell {
    type V = CellModel;

    open spec fn view(&self) -> CellModel {
        match self {
            Cell::Null => CellModel::Null,
            Cell::Number(n) => CellModel::Number(n@),
            Cell::Text(t) => CellModel::Text(t@),
            Cell::Other => CellModel::Other,
        }
    }
}

/// The views of the named cells of a vector, in order.
pub open spec fn columns_view(columns: Seq<(String, Cell)>) -> Seq<(Seq<char>, CellModel)> {
    Seq::new(columns.len(), |i: int| (columns[i].0@, columns[i].1@))
}

impl View for Row {
    type V = RowModel;

    open spec fn view(&self) -> RowModel {
        match self {
            Row::Columns(columns) => RowModel::Columns(columns_view(columns@)),
            Row::Other => RowModel::Other,
        }
    }
}

/// The views of the rows of a vector, in order.
pub open spec fn rows_view(rows: Seq<Row>) -> Seq<RowModel> {
    Seq::new(rows.len(), |i: int| rows[i]@)
}

impl View for Rows {
    type V = RowsModel;

    open spec fn view(&self) -> RowsModel {
        match self {
            Rows::Listed(rows) => RowsModel::Listed(rows_view(rows@)),
            Rows::Other => RowsModel::Other,
        }
    }
}

/// The views of the named tables of a vector, in order.
pub open spec fn tables_view(tables: Seq<(String, Rows)>) -> Seq<(Seq<char>, RowsModel)> {
    Seq::new(tables.len(), |i: int| (tables[i].0@, tables[i].1@))
}

impl View for Snapshot {
    type V = SnapshotModel;

    open spec fn view(&self) -> SnapshotModel {
        SnapshotModel { tables: tables_view(self.tables@) }
    }
}

/// The snapshot that `serde_json` reads from a text, if it reads the text as
/// one JSON object.
pub uninterp spec fn parsed_snapshot(text: Seq<char>) -> Option<SnapshotModel>;

/// The JSON text that `serde_json` writes for a snapshot, indented for
/// reading.
pub uninterp spec fn pretty_snapshot(snapshot: SnapshotModel) -> Seq<char>;

/// Reads a JSON text as a snapshot.
///
/// Calls `serde_json::from_str` for a `serde_json::Map`, which fails
/// unless the text is one JSON object, and copies what it yields into a
/// `Snapshot`: the entries of each object in the map's own order, and a
/// number by the numeral that `serde_json` displays for it. The contract
/// claims only that the same text always gives the same result. On failure
/// the message of `serde_json` is handed back.
#[verifier::external_body]
pub(crate) fn parse_snapshot(text: &str) -> (parsed: Result<Snapshot, String>)
    ensures
        match parsed {
            Ok(snapshot) => parsed_snapshot(text@) == Some(snapshot@),
            Err(_) => parsed_snapshot(text@) is None,
        },
{
    let object: serde_json::Map<String, Value> = serde_json::from_str(text).map_err(|e| e.to_string())?;
    Ok(Snapshot { tables: object.into_iter().map(|(k, v)| (k, match v {
        Value::Array(a) => Rows::Listed(a.into_iter().map(|r| match r {
            Value::Object(o) => Row::Columns(o.into_iter().map(|(k, c)| (k, match c {
                Value::Null => Cell::Null,
                Value::Number(n) => Cell::Number(n.to_string()),
                Value::String(s) => Cell::Text(s),
                _ => Cell::Other,
            })).collect()),
            _ => Row::Other,
        }).collect()),
        _ => Rows::Other,
    })).collect() })
}

/// Writes a snapshot as JSON text.
///
/// Builds a `serde_json::Value` of the same shape and calls
/// `serde_json::to_string_pretty` on it, which cannot fail on a value whose
/// keys are strings. A number is read from its numeral by `serde_json`; one
/// that it does not read, and every `Other`, becomes `null`. The contract
/// claims only that the same snapshot always gives the same text.
#[verifier::external_body]
pub(crate) fn render_snapshot(snapshot: &Snapshot) -> (text: String)
    ensures
        text@ == pretty_snapshot(snapshot@),
{
    let object = snapshot.tables.iter().map(|(k, v)| (k.clone(), match v {
        Rows::Listed(a) => Value::Array(a.iter().map(|r| match r {
            Row::Columns(o) => Value::Object(o.iter().map(|(k, c)| (k.clone(), match c {
                Cell::Number(n) => n.parse().map_or(Value::Null, Value::Number),
                Cell::Text(s) => Value::String(s.clone()),
                _ => Value::Null,
            })).collect()),
            _ => Value::Null,
        }).collect()),
        _ => Value::Null,
    })).collect();
    serde_json::to_string_pretty(&Value::Object(object)).unwrap_or_default()
}

} // verus!
