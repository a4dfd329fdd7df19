//! Writing the tables out as a snapshot.
//!
//! The caller reads the rows of each table with the query that this module
//! gives, and hands them over as plain values. The module pairs every value
//! with the name of its column and has the snapshot written as JSON text.

use vstd::prelude::*;
use vstd::string::*;
use crate::json::{
    columns_view, pretty_snapshot, render_snapshot, rows_view, Cell, CellModel, Row, RowModel,
    Rows, RowsModel, Snapshot, SnapshotModel,
};
use crate::schema::{find_table, key_name, lookup, ConfigurationError};
use crate::text::{decimal, join, join_texts, push_decimal, texts};
use crate::value::Decimal;

verus! {

/// Why a snapshot cannot be written.
#[derive(Debug, Clone, Copy, PartialEq, Eq, Structural)]
pub enum ExportError {
    /// A dump is of a table that is not enrolled.
    UnknownTable,
    /// A row of a dump does not hold one value for each exported column.
    RowLength,
}

impl ExportError {
    /// What went wrong, in words.
    pub open spec fn message_text(self) -> Seq<char> {
        match self {
            ExportError::UnknownTable => "the table is not enrolled in undo logging"@,
            ExportError::RowLength => "a row does not hold one value for each exported column"@,
        }
    }

    /// What went wrong, in words.
    pub fn message(&self) -> (message: &'static str)
        ensures
            message@ == self.message_text(),
    {
        match self {
            ExportError::UnknownTable => "the table is not enrolled in undo logging",
            ExportError::RowLength => "a row does not hold one value for each exported column",
        }
    }
}

/// A value as the store hands it out.
#[derive(Debug, PartialEq, Eq)]
pub enum StoredValue {
    Null,
    Integer(i64),
    Real(Decimal),
    Text(String),
    /// Binary data; its content is not exported.
    Blob,
}

/// A value as the store hands it out, as a mathematical value.
pub enum StoredModel {
    Null,
    Integer(int),
    Real(Seq<char>),
    Text(Seq<char>),
    Blob,
}

impl View for StoredValue {
    type V = StoredModel;

    open spec fn view(&self) -> StoredModel {
        match self {
            StoredValue::Null => StoredModel::Null,
            StoredValue::Integer(i) => StoredModel::Integer(*i as int),
            StoredValue::Real(d) => StoredModel::Real(d@),
            StoredValue::Text(t) => StoredModel::Text(t@),
            StoredValue::Blob => StoredModel::Blob,
        }
    }
}

/// The rows read from one table: for each row the values of the exported
/// columns, in their order.
#[derive(Debug, PartialEq, Eq)]
pub struct TableDump {
    pub name: String,
    pub rows: Vec<Vec<StoredValue>>,
}

/// The rows read from one table, as a mathematical value.
pub struct DumpModel {
    pub name: Seq<char>,
    pub rows: Seq<Seq<StoredModel>>,
}

/// The views of the values of a row, in order.
pub open spec fn row_view(row: Seq<StoredValue>) -> Seq<StoredModel> {
    Seq::new(row.len(), |i: int| row[i]@)
}

/// The views of the rows of a dump, in order.
pub open spec fn dump_rows_view(rows: Seq<Vec<StoredValue>>) -> Seq<Seq<StoredModel>> {
    Seq::new(rows.len(), |i: int| row_view(rows[i]@))
}

impl View for TableDump {
    type V = DumpModel;

    open spec fn view(&self) -> DumpModel {
        DumpModel { name: self.name@, rows: dump_rows_view(self.rows@) }
    }
}

/// The views of the dumps of a vector, in order.
pub open spec fn dumps_view(dumps: Seq<TableDump>) -> Seq<DumpModel> {
    Seq::new(dumps.len(), |i: int| dumps[i]@)
}

/// The columns that are exported of a tracked table: the key, then the
/// recorded columns.
pub open spec fn exported_columns(name: Seq<char>) -> Option<Seq<Seq<char>>> {
    match lookup(name) {
        Some(schema) => Some(seq![key_name()] + schema.columns),
        None => None,
    }
}

/// The text that stands in a snapshot for binary data.
pub open spec fn blob_placeholder() -> Seq<char> {
    "BLOB data not supported"@
}

/// The cell that a stored value becomes in a snapshot.
pub open spec fn exported_cell(value: StoredModel) -> CellModel {
    match value {
        StoredModel::Null => CellModel::Null,
        StoredModel::Integer(i) => CellModel::Number(decimal(i)),
        StoredModel::Real(numeral) => CellModel::Number(numeral),
        StoredModel::Text(t) => CellModel::Text(t),
        StoredModel::Blob => CellModel::Text(blob_placeholder()),
    }
}

/// The row of a snapshot that pairs each column with its exported value.
pub open spec fn exported_row(columns: Seq<Seq<char>>, row: Seq<StoredModel>) -> RowModel {
    RowModel::Columns(Seq::new(columns.len(), |i: int| (columns[i], exported_cell(row[i]))))
}

/// The rows of a dump as rows of a snapshot, one for one and in their
/// order.
pub open spec fn exported_rows(columns: Seq<Seq<char>>, rows: Seq<Seq<StoredModel>>) -> Seq<
    RowModel,
> {
    Seq::new(rows.len(), |i: int| exported_row(columns, rows[i]))
}

/// Whether every row holds one value for each column.
pub open spec fn rows_fit(columns: Seq<Seq<char>>, rows: Seq<Seq<StoredModel>>) -> bool {
    forall|i: int| 0 <= i < rows.len() ==> (#[trigger] rows[i]).len() == columns.len()
}

/// What is wrong with a dump, if anything: its table is not enrolled, or
/// one of its rows does not hold one value for each exported column.
pub open spec fn dump_fault(dump: DumpModel) -> Option<ExportError> {
    match exported_columns(dump.name) {
        None => Some(ExportError::UnknownTable),
        Some(columns) => if rows_fit(columns, dump.rows) {
            None
        } else {
            Some(ExportError::RowLength)
        },
    }
}

/// What is wrong with the first dump at or after position `from` with
/// which something is wrong.
pub open spec fn first_fault(dumps: Seq<DumpModel>, from: int) -> Option<ExportError>
    decreases dumps.len() - from,
{
    if from < 0 || from >= dumps.len() {
        None
    } else if dump_fault(dumps[from]) is Some {
        dump_fault(dumps[from])
    } else {
        first_fault(dumps, from + 1)
    }
}

/// The snapshot of the dumps: each table's name with its rows, the tables in
/// the order of the dumps.
pub open spec fn exported_snapshot(dumps: Seq<DumpModel>) -> SnapshotModel {
    SnapshotModel {
        tables: Seq::new(
            dumps.len(),
            |i: int|
                (
                    dumps[i].name,
                    RowsModel::Listed(
                        exported_rows(exported_columns(dumps[i].name).unwrap(), dumps[i].rows),
                    ),
                ),
        ),
    }
}

/// The tables that are exported, in order.
pub fn export_tables() -> (tables: Vec<&'static str>)
    ensures
        tables@.len() == 6,
        tables[0]@ == "buyers"@,
        tables[1]@ == "sellers"@,
        tables[2]@ == "tree_species"@,
        tables[3]@ == "wood_pieces"@,
        tables[4]@ == "wood_piece_offers"@,
        tables[5]@ == "settings"@,
{
    vec!["buyers", "sellers", "tree_species", "wood_pieces", "wood_piece_offers", "settings"]
}

/// The columns that are exported of a tracked table, in order.
///
/// Fails with `UnknownTable` exactly when no table of that name is enrolled.
pub fn columns_to_export(table: &str) -> (columns: Result<Vec<String>, ConfigurationError>)
    ensures
        match exported_columns(table@) {
            Some(names) => columns matches Ok(list) && texts(list@) == names,
            None => columns matches Err(e) && e == ConfigurationError::UnknownTable,
        },
{
    let mut list: Vec<String> = Vec::new();
    list.push("id".to_owned());
    match find_table(table) {
        Ok(found) => {
            let recorded = found.columns();
            let mut i: usize = 0;
            while i < recorded.len()
                invariant
                    i <= recorded.len(),
                    texts(list@) == seq![key_name()] + texts(recorded@).take(i as int),
                decreases recorded.len() - i,
            {
                let ghost before = texts(list@);
                list.push(recorded[i].clone());
                assert(texts(list@) =~= before.push(recorded[i as int]@));
                assert(texts(recorded@).take(i + 1) =~= texts(recorded@).take(i as int).push(
                    recorded[i as int]@,
                ));
                i += 1;
            }
            assert(texts(recorded@).take(recorded.len() as int) =~= texts(recorded@));
            Ok(list)
        },
        Err(e) => Err(e),
    }
}

/// The columns that are exported of a tracked table as one text, separated
/// by a comma and a space.
///
/// Fails with `UnknownTable` exactly when no table of that name is enrolled.
pub fn get_column_names(table: &str) -> (names: Result<String, ConfigurationError>)
    ensures
        match exported_columns(table@) {
            Some(columns) => names matches Ok(list) && list@ == join(columns, ", "@),
            None => names matches Err(e) && e == ConfigurationError::UnknownTable,
        },
{
    match columns_to_export(table) {
        Ok(columns) => Ok(join_texts(&columns, ", ")),
        Err(e) => Err(e),
    }
}

/// The query that reads the exported columns of every row of a table.
pub open spec fn export_query_text(name: Seq<char>, columns: Seq<Seq<char>>) -> Seq<char> {
    "SELECT "@ + join(columns, ", "@) + " FROM "@ + name
}

/// The query that reads the exported columns of every row of a tracked
/// table.
///
/// Fails with `UnknownTable` exactly when no table of that name is enrolled.
pub fn export_query(table: &str) -> (query: Result<String, ConfigurationError>)
    ensures
        match exported_columns(table@) {
            Some(columns) => query matches Ok(sql) && sql@ == export_query_text(table@, columns),
            None => query matches Err(e) && e == ConfigurationError::UnknownTable,
        },
{
    match get_column_names(table) {
        Ok(names) => {
            let mut sql = String::new();
            sql.append("SELECT ");
            sql.append(names.as_str());
            sql.append(" FROM ");
            sql.append(table);
            Ok(sql)
        },
        Err(e) => Err(e),
    }
}

/// The cell that a stored value becomes in a snapshot.
pub fn export_cell(value: &StoredValue) -> (cell: Cell)
    ensures
        cell@ == exported_cell(value@),
{
    match value {
        StoredValue::Null => Cell::Null,
        StoredValue::Integer(i) => {
            let mut numeral = String::new();
            push_decimal(&mut numeral, *i);
            Cell::Number(numeral)
        },
        StoredValue::Real(d) => Cell::Number(d.as_str().to_owned()),
        StoredValue::Text(t) => Cell::Text(t.clone()),
        StoredValue::Blob => Cell::Text("BLOB data not supported".to_owned()),
    }
}

fn export_row(columns: &Vec<String>, row: &Vec<StoredValue>) -> (exported: Row)
    requires
        columns.len() == row.len(),
    ensures
        exported@ == exported_row(texts(columns@), row_view(row@)),
{
    let mut cells: Vec<(String, Cell)> = Vec::new();
    let mut i: usize = 0;
    while i < columns.len()
        invariant
            i <= columns.len(),
            columns.len() == row.len(),
            cells.len() == i,
            forall|k: int|
                0 <= k < i ==> (#[trigger] cells[k]).0@ == columns[k]@ && cells[k].1@
                    == exported_cell(row[k]@),
        decreases columns.len() - i,
    {
        cells.push((columns[i].clone(), export_cell(&row[i])));
        i += 1;
    }
    assert(columns_view(cells@) =~= Seq::new(
        texts(columns@).len(),
        |i: int| (texts(columns@)[i], exported_cell(row_view(row@)[i])),
    ));
    Row::Columns(cells)
}

/// The snapshot of the dumps: every row of every dump, none left out.
///
/// Fails exactly when something is wrong with a dump, and then with what is
/// wrong with the first such dump: `UnknownTable` when its table is not
/// enrolled, `RowLength` when one of its rows does not hold one value for
/// each exported column.
pub fn export_snapshot(dumps: &Vec<TableDump>) -> (snapshot: Result<Snapshot, ExportError>)
    ensures
        match first_fault(dumps_view(dumps@), 0) {
            Some(fault) => snapshot matches Err(e) && e == fault,
            None => snapshot matches Ok(made) && made@ == exported_snapshot(dumps_view(dumps@)),
        },
{
    let ghost all = dumps_view(dumps@);
    let mut tables: Vec<(String, Rows)> = Vec::new();
    let mut t: usize = 0;
    while t < dumps.len()
        invariant
            t <= dumps.len(),
            all == dumps_view(dumps@),
            tables.len() == t,
            first_fault(all, 0) == first_fault(all, t as int),
            forall|k: int|
                0 <= k < t ==> (#[trigger] tables[k]).0@ == all[k].name && tables[k].1@
                    == RowsModel::Listed(
                    exported_rows(exported_columns(all[k].name).unwrap(), all[k].rows),
                ),
        decreases dumps.len() - t,
    {
        let dump = &dumps[t];
        assert(all[t as int] == dump@);
        let columns = match columns_to_export(dump.name.as_str()) {
            Ok(columns) => columns,
            Err(_) => {
                return Err(ExportError::UnknownTable);
            },
        };
        let mut rows: Vec<Row> = Vec::new();
        let mut r: usize = 0;
        while r < dump.rows.len()
            invariant
                r <= dump.rows.len(),
                rows.len() == r,
                all == dumps_view(dumps@),
                all[t as int] == dump@,
                exported_columns(dump@.name) == Some(texts(columns@)),
                first_fault(all, 0) == first_fault(all, t as int),
                t < all.len(),
                forall|k: int| 0 <= k < r ==> (#[trigger] dump@.rows[k]).len() == columns.len(),
                forall|k: int|
                    0 <= k < r ==> (#[trigger] rows[k])@ == exported_row(
                        texts(columns@),
                        dump@.rows[k],
                    ),
            decreases dump.rows.len() - r,
        {
            assert(dump@.rows[r as int] == row_view(dump.rows[r as int]@));
            if dump.rows[r].len() != columns.len() {
                assert(!rows_fit(texts(columns@), dump@.rows));
                return Err(ExportError::RowLength);
            }
            rows.push(export_row(&columns, &dump.rows[r]));
            r += 1;
        }
        assert(rows_fit(texts(columns@), dump@.rows));
        assert(rows_view(rows@) =~= exported_rows(texts(columns@), dump@.rows));
        tables.push((dump.name.clone(), Rows::Listed(rows)));
        t += 1;
    }
    let made = Snapshot { tables };
    assert(made@.tables =~= exported_snapshot(all).tables);
    Ok(made)
}

/// The JSON text of the snapshot of the dumps, indented for reading.
///
/// Fails exactly when `export_snapshot` fails, and with the same error.
pub fn export_to_json(dumps: &Vec<TableDump>) -> (text: Result<String, ExportError>)
    ensures
        match first_fault(dumps_view(dumps@), 0) {
            Some(fault) => text matches Err(e) && e == fault,
            None => text matches Ok(json) && json@ == pretty_snapshot(
                exported_snapshot(dumps_view(dumps@)),
            ),
        },
{
    match export_snapshot(dumps) {
        Ok(snapshot) => Ok(render_snapshot(&snapshot)),
        Err(e) => Err(e),
    }
}

} // verus!
