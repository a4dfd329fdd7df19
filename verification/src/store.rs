//! A model store: tracked tables in memory, with their undo log.
//!
//! The store does what the database does as far as undo logging goes. A
//! table holds rows under integer keys. Once the triggers of a table are
//! installed, every insert, delete and update of a row logs one inverse
//! statement, which is what the trigger's template yields for that row.
//! Logged statements are executed against the same tables, and while they
//! are executed nothing is logged.

use vstd::prelude::*;
use vstd::string::*;
use std::collections::HashMap;
use crate::log::{entries_view, lemma_append_well_formed, LogEntry, LogFull, LogModel, UndoLog};
use crate::parse::{lemma_read_rendered, parse_statement, read_statement};
use crate::schema::{TableSchema, TrackedTable};
use crate::statement::{
    all_well_formed, check_values, copy_values, render, InverseStatement, Statement, StatementKind,
};
use crate::template::{
    delete_key_pieces, delete_key_template, evaluate, insert_replay_pieces, insert_replay_template,
    lemma_delete_logs_insert, lemma_insert_logs_delete, lemma_update_logs_update,
    update_set_pieces, update_set_template, RowImage,
};
use crate::text::{decimal, push_decimal, same_text, texts};
use crate::value::{values_view, Scalar, SqlValue};

verus! {

broadcast use vstd::std_specs::hash::group_hash_axioms;

/// Why the store refuses a change.
#[derive(Debug, Clone, Copy, PartialEq, Eq, Structural)]
pub enum StoreError {
    /// The store holds no table of that name.
    UnknownTable,
    /// There is not one value for each column of the table, or the columns
    /// named are not the columns of the table.
    ColumnMismatch,
    /// The table holds a row of that key already.
    DuplicateKey,
    /// The log has given out every sequence number.
    LogFull,
    /// The text is no inverse statement.
    Malformed,
}

impl StoreError {
    /// What went wrong, in words.
    pub open spec fn message_text(self) -> Seq<char> {
        match self {
            StoreError::UnknownTable => "the store holds no table of that name"@,
            StoreError::ColumnMismatch => "the values do not match the columns of the table"@,
            StoreError::DuplicateKey => "the table holds a row of that key already"@,
            StoreError::LogFull => "the undo log has given out every sequence number"@,
            StoreError::Malformed => "the text is no inverse statement"@,
        }
    }

    /// What went wrong, in words.
    pub fn message(&self) -> (message: &'static str)
        ensures
            message@ == self.message_text(),
    {
        match self {
            StoreError::UnknownTable => "the store holds no table of that name",
            StoreError::ColumnMismatch => "the values do not match the columns of the table",
            StoreError::DuplicateKey => "the table holds a row of that key already",
            StoreError::LogFull => "the undo log has given out every sequence number",
            StoreError::Malformed => "the text is no inverse statement",
        }
    }
}

/// A table, as a mathematical value: its schema, its rows by key, and
/// whether its triggers are installed.
pub struct TableModel {
    pub schema: TableSchema,
    pub rows: Map<int, Seq<Scalar>>,
    pub logged: bool,
}

impl TableModel {
    /// The schema is well formed, every key fits in 64 bits, and every row
    /// holds one well-formed value for each column.
    pub open spec fn well_formed(self) -> bool {
        &&& self.schema.well_formed()
        &&& forall|key: int| #[trigger]
            self.rows.contains_key(key) ==> {
                &&& i64::MIN <= key <= i64::MAX
                &&& self.rows[key].len() == self.schema.columns.len()
                &&& all_well_formed(self.rows[key])
            }
    }
}

/// Whether every table is well formed.
pub open spec fn tables_well_formed(tables: Seq<TableModel>) -> bool {
    forall|i: int| 0 <= i < tables.len() ==> (#[trigger] tables[i]).well_formed()
}

/// The position of the first table of the given name at or after `from`.
pub open spec fn position_from(tables: Seq<TableModel>, name: Seq<char>, from: int) -> Option<int>
    decreases tables.len() - from,
{
    if from < 0 || from >= tables.len() {
        None
    } else if tables[from].schema.name == name {
        Some(from)
    } else {
        position_from(tables, name, from + 1)
    }
}

/// The position of the table of the given name.
pub open spec fn position(tables: Seq<TableModel>, name: Seq<char>) -> Option<int> {
    position_from(tables, name, 0)
}

/// The tables with the rows of the table at position `at` replaced.
pub open spec fn with_rows(tables: Seq<TableModel>, at: int, rows: Map<int, Seq<Scalar>>) -> Seq<
    TableModel,
> {
    tables.update(at, TableModel { schema: tables[at].schema, rows, logged: tables[at].logged })
}

/// A table of the store.
#[derive(Debug, PartialEq, Eq)]
pub struct Table {
    schema: TrackedTable,
    rows: HashMap<i64, Vec<SqlValue>>,
    logged: bool,
}

/// The rows of a table as a mathematical map.
pub open spec fn rows_view(rows: Map<i64, Vec<SqlValue>>) -> Map<int, Seq<Scalar>> {
    Map::new(
        |key: int| i64::MIN <= key <= i64::MAX && rows.contains_key(key as i64),
        |key: int| values_view(rows[key as i64]@),
    )
}

impl View for Table {
    type V = TableModel;

    closed spec fn view(&self) -> TableModel {
        TableModel { schema: self.schema@, rows: rows_view(self.rows@), logged: self.logged }
    }
}

/// The views of the tables of a vector, in order.
pub open spec fn tables_view(tables: Seq<Table>) -> Seq<TableModel> {
    Seq::new(tables.len(), |i: int| tables[i]@)
}

fn find_position(tables: &Vec<Table>, name: &str) -> (found: Option<usize>)
    ensures
        match found {
            Some(at) => position(tables_view(tables@), name@) == Some(at as int) && at
                < tables.len(),
            None => position(tables_view(tables@), name@) is None,
        },
{
    let mut i: usize = 0;
    while i < tables.len()
        invariant
            i <= tables.len(),
            position(tables_view(tables@), name@) == position_from(
                tables_view(tables@),
                name@,
                i as int,
            ),
        decreases tables.len() - i,
    {
        if same_text(tables[i].schema.name(), name) {
            return Some(i);
        }
        i += 1;
    }
    None
}

fn put_row(tables: &mut Vec<Table>, at: usize, key: i64, values: Vec<SqlValue>)
    requires
        at < old(tables).len(),
    ensures
        tables_view(final(tables)@) == with_rows(
            tables_view(old(tables)@),
            at as int,
            tables_view(old(tables)@)[at as int].rows.insert(key as int, values_view(values@)),
        ),
{
    let ghost before = tables_view(tables@);
    let ghost earlier = tables@;
    tables[at].rows.insert(key, values);
    assert(tables@.len() == earlier.len());
    assert(forall|j: int| 0 <= j < tables@.len() && j != at ==> tables@[j] == earlier[j]);
    assert(tables@[at as int].schema == earlier[at as int].schema);
    assert(tables@[at as int].logged == earlier[at as int].logged);
    assert(tables@[at as int].rows@ == earlier[at as int].rows@.insert(key, values));
    assert(rows_view(tables@[at as int].rows@) =~= rows_view(earlier[at as int].rows@).insert(
        key as int,
        values_view(values@),
    ));
    assert(tables_view(tables@) =~= with_rows(
        before,
        at as int,
        before[at as int].rows.insert(key as int, values_view(values@)),
    ));
}

fn take_row(tables: &mut Vec<Table>, at: usize, key: i64)
    requires
        at < old(tables).len(),
    ensures
        tables_view(final(tables)@) == with_rows(
            tables_view(old(tables)@),
            at as int,
            tables_view(old(tables)@)[at as int].rows.remove(key as int),
        ),
{
    let ghost before = tables_view(tables@);
    let ghost earlier = tables@;
    tables[at].rows.remove(&key);
    assert(tables@.len() == earlier.len());
    assert(forall|j: int| 0 <= j < tables@.len() && j != at ==> tables@[j] == earlier[j]);
    assert(tables@[at as int].schema == earlier[at as int].schema);
    assert(tables@[at as int].logged == earlier[at as int].logged);
    assert(tables@[at as int].rows@ == earlier[at as int].rows@.remove(key));
    assert(rows_view(tables@[at as int].rows@) =~= rows_view(earlier[at as int].rows@).remove(
        key as int,
    ));
    assert(tables_view(tables@) =~= with_rows(
        before,
        at as int,
        before[at as int].rows.remove(key as int),
    ));
}

/// Whether two lists of names are the same.
fn same_names(left: &Vec<String>, right: &Vec<String>) -> (same: bool)
    ensures
        same == (texts(left@) == texts(right@)),
{
    if left.len() != right.len() {
        assert(texts(left@).len() != texts(right@).len());
        return false;
    }
    let mut i: usize = 0;
    while i < left.len()
        invariant
            i <= left.len(),
            left.len() == right.len(),
            forall|k: int| 0 <= k < i ==> left[k]@ == right[k]@,
        decreases left.len() - i,
    {
        if !same_text(left[i].as_str(), right[i].as_str()) {
            assert(texts(left@)[i as int] != texts(right@)[i as int]);
            return false;
        }
        i += 1;
    }
    assert(texts(left@) =~= texts(right@));
    true
}

/// The tables after a statement was applied to them; nothing is logged.
///
/// A delete removes the row of its key, if there is one. An insert adds a
/// row under its key, and is refused if the key is taken. An update
/// replaces the values of the row of its key, if there is one. An insert
/// and an update must name the columns of the table, in their order.
pub open spec fn applied(tables: Seq<TableModel>, statement: Statement) -> Result<
    Seq<TableModel>,
    StoreError,
> {
    match position(tables, statement.table()) {
        None => Err(StoreError::UnknownTable),
        Some(at) => match statement {
            Statement::Delete { key, .. } => Ok(
                with_rows(tables, at, tables[at].rows.remove(key)),
            ),
            Statement::Insert { key, columns, values, .. } => if columns
                != tables[at].schema.columns {
                Err(StoreError::ColumnMismatch)
            } else if tables[at].rows.contains_key(key) {
                Err(StoreError::DuplicateKey)
            } else {
                Ok(with_rows(tables, at, tables[at].rows.insert(key, values)))
            },
            Statement::Update { key, columns, values, .. } => if columns
                != tables[at].schema.columns {
                Err(StoreError::ColumnMismatch)
            } else if tables[at].rows.contains_key(key) {
                Ok(with_rows(tables, at, tables[at].rows.insert(key, values)))
            } else {
                Ok(tables)
            },
        },
    }
}

/// The tables after the statement that a text writes was applied to them.
pub open spec fn executed(tables: Seq<TableModel>, text: Seq<char>) -> Result<
    Seq<TableModel>,
    StoreError,
> {
    match read_statement(text) {
        Some(statement) => applied(tables, statement),
        None => Err(StoreError::Malformed),
    }
}

/// The position of a table lies within the tables, and the table there has
/// the name that was looked up.
proof fn lemma_position(tables: Seq<TableModel>, name: Seq<char>, from: int)
    requires
        0 <= from,
    ensures
        position_from(tables, name, from) matches Some(at) ==> from <= at < tables.len()
            && tables[at].schema.name == name,
    decreases tables.len() - from,
{
    if from < tables.len() && tables[from].schema.name != name {
        lemma_position(tables, name, from + 1);
    }
}

fn apply(tables: &mut Vec<Table>, statement: &InverseStatement) -> (done: Result<
    (),
    StoreError,
>)
    ensures
        match applied(tables_view(old(tables)@), statement@) {
            Ok(after) => done is Ok && tables_view(final(tables)@) == after,
            Err(e) => done == Err::<(), StoreError>(e) && tables_view(final(tables)@)
                == tables_view(old(tables)@),
        },
{
    let at = match find_position(tables, statement.table()) {
        Some(at) => at,
        None => {
            return Err(StoreError::UnknownTable);
        },
    };
    let key = statement.key();
    match statement.kind() {
        StatementKind::Delete => {
            take_row(tables, at, key);
            Ok(())
        },
        StatementKind::Insert => {
            if !same_names(statement.columns(), tables[at].schema.columns()) {
                return Err(StoreError::ColumnMismatch);
            }
            if tables[at].rows.contains_key(&key) {
                return Err(StoreError::DuplicateKey);
            }
            put_row(tables, at, key, copy_values(statement.values()));
            Ok(())
        },
        StatementKind::Update => {
            if !same_names(statement.columns(), tables[at].schema.columns()) {
                return Err(StoreError::ColumnMismatch);
            }
            if tables[at].rows.contains_key(&key) {
                put_row(tables, at, key, copy_values(statement.values()));
            }
            Ok(())
        },
    }
}

/// The store, as a mathematical value: its tables and its undo log.
pub struct DatabaseModel {
    pub tables: Seq<TableModel>,
    pub log: LogModel,
}

impl DatabaseModel {
    /// The tables and the log are well formed.
    pub open spec fn well_formed(self) -> bool {
        &&& tables_well_formed(self.tables)
        &&& self.log.well_formed()
    }
}

/// What the insert trigger of a table logs for a new row.
pub open spec fn logged_on_insert(schema: TableSchema, key: int, values: Seq<Scalar>) -> Seq<char> {
    evaluate(
        delete_key_pieces(schema),
        RowImage { key, values },
        RowImage { key, values: Seq::empty() },
    )
}

/// What the delete trigger of a table logs for an old row.
pub open spec fn logged_on_delete(schema: TableSchema, key: int, values: Seq<Scalar>) -> Seq<char> {
    evaluate(
        insert_replay_pieces(schema),
        RowImage { key, values },
        RowImage { key, values: Seq::empty() },
    )
}

/// What the update trigger of a table logs for an old row.
pub open spec fn logged_on_update(schema: TableSchema, key: int, values: Seq<Scalar>) -> Seq<char> {
    evaluate(
        update_set_pieces(schema),
        RowImage { key, values },
        RowImage { key, values: Seq::empty() },
    )
}

/// The log after a change to the table at position `at`: one entry more if
/// the triggers of the table are installed, and the log as it was if not.
pub open spec fn log_after(db: DatabaseModel, at: int, text: Seq<char>) -> LogModel {
    if db.tables[at].logged {
        db.log.append(text)
    } else {
        db.log
    }
}

/// The store after the insert of a row.
pub open spec fn inserted(db: DatabaseModel, name: Seq<char>, key: int, values: Seq<Scalar>)
    -> Result<DatabaseModel, StoreError> {
    match position(db.tables, name) {
        None => Err(StoreError::UnknownTable),
        Some(at) => if values.len() != db.tables[at].schema.columns.len() {
            Err(StoreError::ColumnMismatch)
        } else if db.tables[at].rows.contains_key(key) {
            Err(StoreError::DuplicateKey)
        } else if db.tables[at].logged && db.log.last >= i64::MAX {
            Err(StoreError::LogFull)
        } else {
            Ok(
                DatabaseModel {
                    tables: with_rows(db.tables, at, db.tables[at].rows.insert(key, values)),
                    log: log_after(db, at, logged_on_insert(db.tables[at].schema, key, values)),
                },
            )
        },
    }
}

/// The store after the delete of the row of a key; the store as it was if
/// the table holds no such row.
pub open spec fn deleted(db: DatabaseModel, name: Seq<char>, key: int) -> Result<
    DatabaseModel,
    StoreError,
> {
    match position(db.tables, name) {
        None => Err(StoreError::UnknownTable),
        Some(at) => if !db.tables[at].rows.contains_key(key) {
            Ok(db)
        } else if db.tables[at].logged && db.log.last >= i64::MAX {
            Err(StoreError::LogFull)
        } else {
            Ok(
                DatabaseModel {
                    tables: with_rows(db.tables, at, db.tables[at].rows.remove(key)),
                    log: log_after(
                        db,
                        at,
                        logged_on_delete(db.tables[at].schema, key, db.tables[at].rows[key]),
                    ),
                },
            )
        },
    }
}

/// The store after the update of the row of a key; the store as it was if
/// the table holds no such row.
pub open spec fn updated(db: DatabaseModel, name: Seq<char>, key: int, values: Seq<Scalar>)
    -> Result<DatabaseModel, StoreError> {
    match position(db.tables, name) {
        None => Err(StoreError::UnknownTable),
        Some(at) => if values.len() != db.tables[at].schema.columns.len() {
            Err(StoreError::ColumnMismatch)
        } else if !db.tables[at].rows.contains_key(key) {
            Ok(db)
        } else if db.tables[at].logged && db.log.last >= i64::MAX {
            Err(StoreError::LogFull)
        } else {
            Ok(
                DatabaseModel {
                    tables: with_rows(db.tables, at, db.tables[at].rows.insert(key, values)),
                    log: log_after(
                        db,
                        at,
                        logged_on_update(db.tables[at].schema, key, db.tables[at].rows[key]),
                    ),
                },
            )
        },
    }
}

/// The tables with the triggers of the first `n` of them installed. A
/// table whose triggers are installed already stays as it is.
pub open spec fn installed_up_to(tables: Seq<TableModel>, n: int) -> Seq<TableModel> {
    Seq::new(
        tables.len(),
        |i: int|
            if i < n {
                TableModel { schema: tables[i].schema, rows: tables[i].rows, logged: true }
            } else {
                tables[i]
            },
    )
}

/// The store with the triggers of every table installed.
pub open spec fn installed(db: DatabaseModel) -> DatabaseModel {
    DatabaseModel { tables: installed_up_to(db.tables, db.tables.len() as int), log: db.log }
}

/// The store after its `count` newest log entries were executed, newest
/// first, and taken off the log; or the sequence number of the first entry
/// that could not be executed, with the reason.
pub open spec fn replayed(db: DatabaseModel, count: nat) -> Result<DatabaseModel, (int, StoreError)>
    decreases count,
{
    if count == 0 || db.log.entries.len() == 0 {
        Ok(db)
    } else {
        let entry = db.log.entries.last();
        match executed(db.tables, entry.statement) {
            Ok(tables) => replayed(
                DatabaseModel {
                    tables,
                    log: LogModel { entries: db.log.entries.drop_last(), last: db.log.last },
                },
                (count - 1) as nat,
            ),
            Err(reason) => Err((entry.sequence, reason)),
        }
    }
}

/// Applying a well-formed statement keeps the tables well formed.
proof fn lemma_applied_well_formed(tables: Seq<TableModel>, statement: Statement)
    requires
        tables_well_formed(tables),
        statement.well_formed(),
    ensures
        applied(tables, statement) matches Ok(after) ==> tables_well_formed(after),
{
    lemma_position(tables, statement.table(), 0);
    if let Ok(after) = applied(tables, statement) {
        let at = position(tables, statement.table()).unwrap();
        assert forall|i: int| 0 <= i < after.len() implies (#[trigger] after[i]).well_formed() by {
            assert(tables[i].well_formed());
            if i == at {
                assert forall|key: int| #[trigger] after[i].rows.contains_key(key) implies {
                    &&& i64::MIN <= key <= i64::MAX
                    &&& after[i].rows[key].len() == after[i].schema.columns.len()
                    &&& all_well_formed(after[i].rows[key])
                } by {
                    if key != statement.key() {
                        assert(tables[i].rows.contains_key(key));
                    } else {
                        match statement {
                            Statement::Delete { .. } => {},
                            _ => {},
                        }
                    }
                }
            }
        }
    }
}

/// The failure of a replay: the sequence number of the entry whose
/// statement could not be executed, and why.
#[derive(Debug, Clone, Copy, PartialEq, Eq, Structural)]
pub struct ReplayError {
    pub sequence: i64,
    pub reason: StoreError,
}

impl ReplayError {
    /// What went wrong, in words: which entry could not be undone, and why.
    pub open spec fn message_text(self) -> Seq<char> {
        "log entry "@ + decimal(self.sequence as int) + " could not be undone: "@
            + self.reason.message_text()
    }

    /// What went wrong, in words: which entry could not be undone, and why.
    pub fn message(&self) -> (message: String)
        ensures
            message@ == self.message_text(),
    {
        let mut message = String::new();
        message.append("log entry ");
        push_decimal(&mut message, self.sequence);
        message.append(" could not be undone: ");
        message.append(self.reason.message());
        assert(Seq::<char>::empty() + "log entry "@ == "log entry "@);
        message
    }
}

/// The store: tracked tables and their undo log.
#[derive(Debug, PartialEq, Eq)]
pub struct Database {
    tables: Vec<Table>,
    log: UndoLog,
}

impl View for Database {
    type V = DatabaseModel;

    closed spec fn view(&self) -> DatabaseModel {
        DatabaseModel { tables: tables_view(self.tables@), log: self.log@ }
    }
}

fn copy_tables(tables: &Vec<Table>) -> (copies: Vec<Table>)
    ensures
        tables_view(copies@) == tables_view(tables@),
{
    let mut copies: Vec<Table> = Vec::new();
    let mut i: usize = 0;
    while i < tables.len()
        invariant
            i <= tables.len(),
            copies.len() == i,
            forall|k: int| 0 <= k < i ==> (#[trigger] copies[k])@ == tables[k]@,
        decreases tables.len() - i,
    {
        let table = &tables[i];
        copies.push(
            Table { schema: table.schema.clone(), rows: table.rows.clone(), logged: table.logged },
        );
        i += 1;
    }
    assert(tables_view(copies@) =~= tables_view(tables@));
    copies
}

/// One table for each schema, without rows and without triggers.
pub open spec fn empty_tables(schemas: Seq<TrackedTable>) -> Seq<TableModel> {
    Seq::new(
        schemas.len(),
        |i: int| TableModel { schema: schemas[i]@, rows: Map::empty(), logged: false },
    )
}

/// A table that holds no row keeps the tables well formed.
fn empty_table(schema: TrackedTable) -> (table: Table)
    ensures
        table@ == (TableModel { schema: schema@, rows: Map::empty(), logged: false }),
        table@.well_formed(),
{
    proof {
        use_type_invariant(&schema);
    }
    let rows: HashMap<i64, Vec<SqlValue>> = HashMap::new();
    assert(rows_view(rows@) =~= Map::empty());
    Table { schema, rows, logged: false }
}

impl Database {
    #[verifier::type_invariant]
    spec fn valid(self) -> bool {
        tables_well_formed(tables_view(self.tables@))
    }

    /// A store with one empty table for each schema, and an empty log. No
    /// trigger is installed yet.
    pub fn new(schemas: Vec<TrackedTable>) -> (db: Database)
        ensures
            db@.well_formed(),
            db@.log == (LogModel { entries: Seq::empty(), last: 0 }),
            db@.tables == empty_tables(schemas@),
    {
        Database::with_log(schemas, UndoLog::new())
    }

    /// A store with one empty table for each schema, and the given log. No
    /// trigger is installed yet.
    pub fn with_log(schemas: Vec<TrackedTable>, log: UndoLog) -> (db: Database)
        ensures
            db@.well_formed(),
            db@.log == log@,
            db@.tables == empty_tables(schemas@),
    {
        proof {
            use_type_invariant(&log);
        }
        let mut tables: Vec<Table> = Vec::new();
        let mut i: usize = 0;
        while i < schemas.len()
            invariant
                i <= schemas.len(),
                tables.len() == i,
                tables_well_formed(tables_view(tables@)),
                forall|k: int|
                    0 <= k < i ==> (#[trigger] tables[k])@ == (TableModel {
                        schema: schemas[k]@,
                        rows: Map::empty(),
                        logged: false,
                    }),
            decreases schemas.len() - i,
        {
            let ghost earlier = tables_view(tables@);
            tables.push(empty_table(schemas[i].clone()));
            proof {
                let after = tables_view(tables@);
                assert forall|k: int| 0 <= k < after.len() implies (
                #[trigger] after[k]).well_formed() by {
                    if k < i {
                        assert(after[k] == earlier[k]);
                    }
                }
            }
            i += 1;
        }
        assert(tables_view(tables@) =~= empty_tables(schemas@));
        Database { tables, log }
    }

    /// Moves the tables and the log out and leaves an empty store behind.
    fn take(&mut self) -> (parts: (Vec<Table>, UndoLog))
        ensures
            tables_view(parts.0@) == old(self)@.tables,
            parts.1@ == old(self)@.log,
            tables_well_formed(old(self)@.tables),
            old(self)@.log.well_formed(),
    {
        proof {
            use_type_invariant(&*self);
        }
        let mut taken = Database { tables: Vec::new(), log: UndoLog::new() };
        core::mem::swap(self, &mut taken);
        proof {
            use_type_invariant(&taken.log);
        }
        (taken.tables, taken.log)
    }

    /// The undo log.
    pub fn log(&self) -> (log: &UndoLog)
        ensures
            log@ == self@.log,
            self@.well_formed(),
    {
        proof {
            use_type_invariant(self);
            use_type_invariant(&self.log);
        }
        &self.log
    }

    /// The number of tables.
    pub fn table_count(&self) -> (count: usize)
        ensures
            count == self@.tables.len(),
    {
        self.tables.len()
    }

    /// The number of rows of a table; none if the store holds no table of
    /// that name.
    pub fn row_count(&self, table: &str) -> (count: Option<usize>)
        ensures
            match position(self@.tables, table@) {
                Some(at) => count matches Some(n) && n == self@.tables[at].rows.dom().len(),
                None => count is None,
            },
    {
        match find_position(&self.tables, table) {
            Some(at) => {
                let n = self.tables[at].rows.len();
                proof {
                    lemma_rows_count(self.tables[at as int].rows@);
                }
                Some(n)
            },
            None => None,
        }
    }

    /// The values of the row of a key; none if the store holds no table of
    /// that name or the table no row of that key.
    pub fn row(&self, table: &str, key: i64) -> (values: Option<Vec<SqlValue>>)
        ensures
            match position(self@.tables, table@) {
                Some(at) => if self@.tables[at].rows.contains_key(key as int) {
                    values matches Some(v) && values_view(v@) == self@.tables[at].rows[key as int]
                } else {
                    values is None
                },
                None => values is None,
            },
    {
        match find_position(&self.tables, table) {
            Some(at) => match self.tables[at].rows.get(&key) {
                Some(values) => Some(copy_values(values)),
                None => None,
            },
            None => None,
        }
    }

    /// Whether the triggers of a table are installed; none if the store
    /// holds no table of that name.
    pub fn is_logged(&self, table: &str) -> (logged: Option<bool>)
        ensures
            match position(self@.tables, table@) {
                Some(at) => logged == Some(self@.tables[at].logged),
                None => logged is None,
            },
    {
        match find_position(&self.tables, table) {
            Some(at) => Some(self.tables[at].logged),
            None => None,
        }
    }

    /// Drops all but the `keep` newest entries of the log. The tables stay
    /// as they are; what is dropped can no longer be undone.
    pub fn retain_log(&mut self, keep: usize)
        ensures
            final(self)@ == (DatabaseModel {
                tables: old(self)@.tables,
                log: old(self)@.log.retained(keep as nat),
            }),
    {
        let (tables, mut log) = self.take();
        log.retain_newest(keep);
        *self = Database { tables, log };
    }

    /// Installs the triggers of every table. Triggers that are installed
    /// already stay as they are, so installing again changes nothing.
    pub fn install_triggers(&mut self)
        ensures
            final(self)@ == installed(old(self)@),
    {
        let ghost before = self@;
        let (mut tables, log) = self.take();
        let mut i: usize = 0;
        assert(tables_view(tables@) =~= installed_up_to(before.tables, 0));
        while i < tables.len()
            invariant
                i <= tables.len(),
                tables.len() == before.tables.len(),
                tables_well_formed(before.tables),
                tables_view(tables@) == installed_up_to(before.tables, i as int),
            decreases tables.len() - i,
        {
            let ghost earlier = tables@;
            tables[i].logged = true;
            assert(tables@.len() == earlier.len());
            assert(forall|j: int| 0 <= j < tables@.len() && j != i ==> tables@[j] == earlier[j]);
            assert(tables@[i as int].schema == earlier[i as int].schema);
            assert(tables@[i as int].rows == earlier[i as int].rows);
            assert forall|j: int| 0 <= j < tables@.len() implies tables_view(tables@)[j]
                == installed_up_to(before.tables, i + 1)[j] by {
                assert(tables_view(earlier)[j] == installed_up_to(before.tables, i as int)[j]);
            }
            assert(tables_view(tables@) =~= installed_up_to(before.tables, i + 1));
            i += 1;
        }
        proof {
            let after = installed_up_to(before.tables, before.tables.len() as int);
            assert forall|k: int| 0 <= k < after.len() implies (#[trigger] after[k]).well_formed() by {
                assert(before.tables[k].well_formed());
            }
        }
        *self = Database { tables, log };
    }

    /// Inserts a row under a key.
    ///
    /// Fails, and leaves the store as it is, when the store holds no table
    /// of that name, when there is not one value for each column, when the
    /// key is taken, or when the log is full. Otherwise the row is added,
    /// and if the triggers of the table are installed one entry is logged.
    pub fn insert(&mut self, table: &str, key: i64, values: Vec<SqlValue>) -> (done: Result<
        (),
        StoreError,
    >)
        ensures
            match inserted(old(self)@, table@, key as int, values_view(values@)) {
                Ok(after) => done is Ok && final(self)@ == after,
                Err(e) => done == Err::<(), StoreError>(e) && final(self)@ == old(self)@,
            },
    {
        proof {
            use_type_invariant(&*self);
        }
        let at = match find_position(&self.tables, table) {
            Some(at) => at,
            None => {
                return Err(StoreError::UnknownTable);
            },
        };
        if values.len() != self.tables[at].schema.columns().len() {
            return Err(StoreError::ColumnMismatch);
        }
        if self.tables[at].rows.contains_key(&key) {
            return Err(StoreError::DuplicateKey);
        }
        let text = if self.tables[at].logged {
            delete_key_template(&self.tables[at].schema).evaluate(key, &values, key)
        } else {
            None
        };
        let ghost before = self@;
        let (mut tables, mut log) = self.take();
        if let Some(statement) = text {
            if log.append(statement).is_err() {
                *self = Database { tables, log };
                return Err(StoreError::LogFull);
            }
        }
        check_values(&values);
        put_row(&mut tables, at, key, values);
        proof {
            let after = tables_view(tables@);
            assert forall|i: int| 0 <= i < after.len() implies (#[trigger] after[i]).well_formed() by {
                assert(before.tables[i].well_formed());
                if i == at {
                    assert forall|k: int| #[trigger] after[i].rows.contains_key(k) implies {
                        &&& i64::MIN <= k <= i64::MAX
                        &&& after[i].rows[k].len() == after[i].schema.columns.len()
                        &&& all_well_formed(after[i].rows[k])
                    } by {
                        if k != key {
                            assert(before.tables[i].rows.contains_key(k));
                        }
                    }
                }
            }
        }
        *self = Database { tables, log };
        Ok(())
    }

    /// Deletes the row of a key, and tells whether there was one.
    ///
    /// Fails, and leaves the store as it is, when the store holds no table
    /// of that name or when the log is full. Otherwise the row is removed,
    /// and if the triggers of the table are installed one entry is logged.
    /// Where the table holds no row of that key, nothing changes and nothing
    /// is logged.
    pub fn delete(&mut self, table: &str, key: i64) -> (done: Result<bool, StoreError>)
        ensures
            match deleted(old(self)@, table@, key as int) {
                Ok(after) => final(self)@ == after && (match position(old(self)@.tables, table@) {
                    Some(at) => done == Ok::<bool, StoreError>(
                        old(self)@.tables[at].rows.contains_key(key as int),
                    ),
                    None => false,
                }),
                Err(e) => done == Err::<bool, StoreError>(e) && final(self)@ == old(self)@,
            },
    {
        proof {
            use_type_invariant(&*self);
        }
        let at = match find_position(&self.tables, table) {
            Some(at) => at,
            None => {
                return Err(StoreError::UnknownTable);
            },
        };
        let ghost before = self@;
        assert(before.tables[at as int].well_formed());
        let text = match self.tables[at].rows.get(&key) {
            Some(old_values) => if self.tables[at].logged {
                insert_replay_template(&self.tables[at].schema).evaluate(key, old_values, key)
            } else {
                None
            },
            None => {
                return Ok(false);
            },
        };
        assert(before.tables[at as int].rows.contains_key(key as int));
        let (mut tables, mut log) = self.take();
        if let Some(statement) = text {
            if log.append(statement).is_err() {
                *self = Database { tables, log };
                return Err(StoreError::LogFull);
            }
        }
        take_row(&mut tables, at, key);
        proof {
            let after = tables_view(tables@);
            assert forall|i: int| 0 <= i < after.len() implies (#[trigger] after[i]).well_formed() by {
                assert(before.tables[i].well_formed());
                if i == at {
                    assert forall|k: int| #[trigger] after[i].rows.contains_key(k) implies {
                        &&& i64::MIN <= k <= i64::MAX
                        &&& after[i].rows[k].len() == after[i].schema.columns.len()
                        &&& all_well_formed(after[i].rows[k])
                    } by {
                        assert(before.tables[i].rows.contains_key(k));
                    }
                }
            }
        }
        *self = Database { tables, log };
        Ok(true)
    }

    /// Gives the row of a key new values, and tells whether there was such
    /// a row.
    ///
    /// Fails, and leaves the store as it is, when the store holds no table
    /// of that name, when there is not one value for each column, or when
    /// the log is full. Otherwise the values are replaced, and if the
    /// triggers of the table are installed one entry is logged. Where the
    /// table holds no row of that key, nothing changes and nothing is
    /// logged.
    pub fn update(&mut self, table: &str, key: i64, values: Vec<SqlValue>) -> (done: Result<
        bool,
        StoreError,
    >)
        ensures
            match updated(old(self)@, table@, key as int, values_view(values@)) {
                Ok(after) => final(self)@ == after && (match position(old(self)@.tables, table@) {
                    Some(at) => done == Ok::<bool, StoreError>(
                        old(self)@.tables[at].rows.contains_key(key as int),
                    ),
                    None => false,
                }),
                Err(e) => done == Err::<bool, StoreError>(e) && final(self)@ == old(self)@,
            },
    {
        proof {
            use_type_invariant(&*self);
        }
        let at = match find_position(&self.tables, table) {
            Some(at) => at,
            None => {
                return Err(StoreError::UnknownTable);
            },
        };
        if values.len() != self.tables[at].schema.columns().len() {
            return Err(StoreError::ColumnMismatch);
        }
        let ghost before = self@;
        assert(before.tables[at as int].well_formed());
        let text = match self.tables[at].rows.get(&key) {
            Some(old_values) => if self.tables[at].logged {
                update_set_template(&self.tables[at].schema).evaluate(key, old_values, key)
            } else {
                None
            },
            None => {
                return Ok(false);
            },
        };
        assert(before.tables[at as int].rows.contains_key(key as int));
        let (mut tables, mut log) = self.take();
        if let Some(statement) = text {
            if log.append(statement).is_err() {
                *self = Database { tables, log };
                return Err(StoreError::LogFull);
            }
        }
        check_values(&values);
        put_row(&mut tables, at, key, values);
        proof {
            let after = tables_view(tables@);
            assert forall|i: int| 0 <= i < after.len() implies (#[trigger] after[i]).well_formed() by {
                assert(before.tables[i].well_formed());
                if i == at {
                    assert forall|k: int| #[trigger] after[i].rows.contains_key(k) implies {
                        &&& i64::MIN <= k <= i64::MAX
                        &&& after[i].rows[k].len() == after[i].schema.columns.len()
                        &&& all_well_formed(after[i].rows[k])
                    } by {
                        if k != key {
                            assert(before.tables[i].rows.contains_key(k));
                        }
                    }
                }
            }
        }
        *self = Database { tables, log };
        Ok(true)
    }

    /// Executes the inverse statement that a text writes. Nothing is
    /// logged.
    ///
    /// Fails, and leaves the store as it is, when the text is no inverse
    /// statement (`Malformed`), or when the statement cannot be applied.
    pub fn execute(&mut self, text: &str) -> (done: Result<(), StoreError>)
        ensures
            match executed(old(self)@.tables, text@) {
                Ok(tables) => done is Ok && final(self)@ == (DatabaseModel {
                    tables,
                    log: old(self)@.log,
                }),
                Err(e) => done == Err::<(), StoreError>(e) && final(self)@ == old(self)@,
            },
    {
        let statement = match parse_statement(text) {
            Some(statement) => statement,
            None => {
                return Err(StoreError::Malformed);
            },
        };
        let ghost before = self@;
        let (mut tables, log) = self.take();
        let done = apply(&mut tables, &statement);
        proof {
            lemma_applied_well_formed(before.tables, statement@);
        }
        *self = Database { tables, log };
        done
    }

    /// Undoes the `n` most recent changes: executes the `n` newest entries
    /// of the log, newest first, and takes them off the log. Where the log
    /// holds fewer entries, all of them are undone. Nothing is logged while
    /// the entries are executed.
    ///
    /// All or nothing: if an entry cannot be executed, the store and the log
    /// stay as they were, and the error names the sequence number of that
    /// entry.
    pub fn undo_last(&mut self, n: usize) -> (done: Result<usize, ReplayError>)
        ensures
            match replayed(old(self)@, n as nat) {
                Ok(after) => {
                    &&& final(self)@ == after
                    &&& done matches Ok(count)
                    &&& count == (if n <= old(self)@.log.entries.len() {
                        n as int
                    } else {
                        old(self)@.log.entries.len() as int
                    })
                },
                Err((sequence, reason)) => final(self)@ == old(self)@ && done == Err::<
                    usize,
                    ReplayError,
                >(ReplayError { sequence: sequence as i64, reason }) && i64::MIN <= sequence
                    <= i64::MAX,
            },
    {
        let ghost before = self@;
        let (tables, mut log) = self.take();
        match replay(&tables, &log, n) {
            Ok((working, count)) => {
                log.remove_newest(count);
                *self = Database { tables: working, log };
                Ok(count)
            },
            Err(failure) => {
                *self = Database { tables, log };
                Err(failure)
            },
        }
    }
}

/// A table holds as many rows as its map has keys.
proof fn lemma_rows_count(rows: Map<i64, Vec<SqlValue>>)
    requires
        rows.dom().finite(),
    ensures
        rows_view(rows).dom().len() == rows.dom().len(),
        rows_view(rows).dom().finite(),
    decreases rows.dom().len(),
{
    if rows.dom().len() == 0 {
        assert(rows.dom() =~= Set::empty());
        assert(rows_view(rows).dom() =~= Set::empty());
    } else {
        let key = rows.dom().choose();
        let rest = rows.remove(key);
        lemma_rows_count(rest);
        assert(rows_view(rows).dom() =~= rows_view(rest).dom().insert(key as int));
        assert(!rows_view(rest).dom().contains(key as int));
    }
}

/// The store with the tables as they are after `done` entries were
/// replayed, and the log without those entries.
pub open spec fn replaying(log: LogModel, tables: Seq<TableModel>, done: int) -> DatabaseModel {
    DatabaseModel {
        tables,
        log: LogModel { entries: log.entries.take(log.entries.len() - done), last: log.last },
    }
}

/// Executes the statement of one entry on the working tables.
fn replay_entry(working: &mut Vec<Table>, entry: &LogEntry) -> (done: Result<
    (),
    ReplayError,
>)
    requires
        tables_well_formed(tables_view(old(working)@)),
    ensures
        match executed(tables_view(old(working)@), entry@.statement) {
            Ok(after) => done is Ok && tables_view(final(working)@) == after && tables_well_formed(
                after,
            ),
            Err(reason) => done == Err::<(), ReplayError>(
                ReplayError { sequence: entry@.sequence as i64, reason },
            ),
        },
{
    let sequence = entry.sequence();
    let statement = match parse_statement(entry.statement()) {
        Some(statement) => statement,
        None => {
            return Err(ReplayError { sequence, reason: StoreError::Malformed });
        },
    };
    proof {
        lemma_applied_well_formed(tables_view(working@), statement@);
    }
    match apply(working, &statement) {
        Ok(()) => Ok(()),
        Err(reason) => Err(ReplayError { sequence, reason }),
    }
}

/// One step of a replay: the newest entry is executed and taken off.
proof fn lemma_replayed_step(log: LogModel, tables: Seq<TableModel>, done: int, count: nat)
    requires
        0 <= done < log.entries.len(),
        count > 0,
    ensures
        replayed(replaying(log, tables, done), count) == (match executed(
            tables,
            log.entries[log.entries.len() - 1 - done].statement,
        ) {
            Ok(after) => replayed(replaying(log, after, done + 1), (count - 1) as nat),
            Err(reason) => Err((log.entries[log.entries.len() - 1 - done].sequence, reason)),
        }),
{
    let current = replaying(log, tables, done);
    assert(current.log.entries.last() == log.entries[log.entries.len() - 1 - done]);
    assert(current.log.entries.drop_last() =~= log.entries.take(log.entries.len() - (done + 1)));
}

/// A replay that has nothing left to do gives the store as it stands.
proof fn lemma_replayed_end(log: LogModel, tables: Seq<TableModel>, done: int, count: nat)
    requires
        0 <= done <= log.entries.len(),
        count == 0 || done == log.entries.len(),
    ensures
        replayed(replaying(log, tables, done), count) == Ok::<DatabaseModel, (int, StoreError)>(
            replaying(log, tables, done),
        ),
{
}

/// Replays the `n` newest entries of the log on a copy of the tables.
fn replay(tables: &Vec<Table>, log: &UndoLog, n: usize) -> (done: Result<
    (Vec<Table>, usize),
    ReplayError,
>)
    requires
        tables_well_formed(tables_view(tables@)),
        log@.well_formed(),
    ensures
        match replayed(DatabaseModel { tables: tables_view(tables@), log: log@ }, n as nat) {
            Ok(after) => {
                &&& done matches Ok((working, count))
                &&& tables_view(working@) == after.tables
                &&& after.log == log@.without_newest(n as nat)
                &&& log@.without_newest(count as nat) == log@.without_newest(n as nat)
                &&& tables_well_formed(after.tables)
                &&& count == (if n <= log@.entries.len() {
                    n as int
                } else {
                    log@.entries.len() as int
                })
            },
            Err((sequence, reason)) => done == Err::<(Vec<Table>, usize), ReplayError>(
                ReplayError { sequence: sequence as i64, reason },
            ) && i64::MIN <= sequence <= i64::MAX,
        },
{
    let total = log.len();
    let count = if n <= total {
        n
    } else {
        total
    };
    let newest = log.newest(count);
    assert(newest.len() == count) by {
        assert(entries_view(newest@).len() == log@.newest(count as nat).len());
    }
    let mut working = copy_tables(tables);
    let mut k: usize = 0;
    let ghost start = DatabaseModel { tables: tables_view(tables@), log: log@ };
    assert(replaying(log@, tables_view(working@), 0) == start) by {
        assert(log@.entries.take(log@.entries.len() as int) =~= log@.entries);
    }
    while k < count
        invariant
            k <= count <= total,
            count <= n,
            count == n || count == total,
            total == log@.entries.len(),
            log@.well_formed(),
            newest.len() == count,
            entries_view(newest@) == log@.newest(count as nat),
            start == (DatabaseModel { tables: tables_view(tables@), log: log@ }),
            tables_well_formed(tables_view(working@)),
            replayed(start, n as nat) == replayed(
                replaying(log@, tables_view(working@), k as int),
                (n - k) as nat,
            ),
        decreases count - k,
    {
        let entry = &newest[k];
        assert(entries_view(newest@)[k as int] == entry@);
        let ghost pre = tables_view(working@);
        proof {
            lemma_replayed_step(log@, pre, k as int, (n - k) as nat);
            assert(0 < log@.entries[total - 1 - k].sequence <= log@.last);
            assert(entry@ == log@.entries[total - 1 - k]);
        }
        match replay_entry(&mut working, entry) {
            Ok(()) => {},
            Err(failure) => {
                return Err(failure);
            },
        }
        k += 1;
    }
    proof {
        lemma_replayed_end(log@, tables_view(working@), k as int, (n - k) as nat);
        assert(log@.without_newest(n as nat).entries =~= log@.entries.take(total - count));
        assert(log@.without_newest(count as nat).entries =~= log@.entries.take(total - count));
    }
    Ok((working, count))
}

/// Replacing the rows of a table moves no table.
proof fn lemma_position_with_rows(
    tables: Seq<TableModel>,
    at: int,
    rows: Map<int, Seq<Scalar>>,
    name: Seq<char>,
    from: int,
)
    requires
        0 <= at < tables.len(),
        0 <= from,
    ensures
        position_from(with_rows(tables, at, rows), name, from) == position_from(
            tables,
            name,
            from,
        ),
    decreases tables.len() - from,
{
    if from < tables.len() {
        assert(with_rows(tables, at, rows)[from].schema == tables[from].schema);
        if tables[from].schema.name != name {
            lemma_position_with_rows(tables, at, rows, name, from + 1);
        }
    }
}

/// For all tables whose triggers are installed and all rows inserted into
/// them: after the insert the log holds exactly one entry more, under the
/// next sequence number. The statement of that entry deletes the row by its
/// key, and executing it gives back the tables as they were before the
/// insert, so the table is without the row and every other row is unchanged.
pub proof fn lemma_insert_is_logged(
    db: DatabaseModel,
    name: Seq<char>,
    key: int,
    values: Seq<Scalar>,
)
    requires
        db.well_formed(),
        i64::MIN <= key <= i64::MAX,
        all_well_formed(values),
        inserted(db, name, key, values) is Ok,
        db.tables[position(db.tables, name)->Some_0].logged,
    ensures
        ({
            let at = position(db.tables, name)->Some_0;
            let after = inserted(db, name, key, values)->Ok_0;
            let undo = render(Statement::Delete { table: name, key });
            &&& !db.tables[at].rows.contains_key(key)
            &&& after.tables[at].rows == db.tables[at].rows.insert(key, values)
            &&& after.log == db.log.append(undo)
            &&& after.log.entries.len() == db.log.entries.len() + 1
            &&& after.log.entries.last().statement == undo
            &&& after.log.entries.last().sequence == db.log.last + 1
            &&& executed(after.tables, undo) == Ok::<Seq<TableModel>, StoreError>(db.tables)
            &&& after.well_formed()
        }),
{
    let at = position(db.tables, name)->Some_0;
    lemma_position(db.tables, name, 0);
    let table = db.tables[at];
    assert(table.well_formed());
    let after = inserted(db, name, key, values)->Ok_0;
    let statement = Statement::Delete { table: name, key };
    lemma_insert_logs_delete(
        table.schema,
        RowImage { key, values },
        RowImage { key, values: Seq::empty() },
    );
    lemma_read_rendered(statement);
    lemma_position_with_rows(db.tables, at, table.rows.insert(key, values), name, 0);
    assert(table.rows.insert(key, values).remove(key) =~= table.rows);
    assert(with_rows(after.tables, at, after.tables[at].rows.remove(key)) =~= db.tables);
    lemma_append_well_formed(db.log, render(statement));
    assert forall|i: int| 0 <= i < after.tables.len() implies (
    #[trigger] after.tables[i]).well_formed() by {
        assert(db.tables[i].well_formed());
        if i == at {
            assert forall|k: int| #[trigger] after.tables[i].rows.contains_key(k) implies {
                &&& i64::MIN <= k <= i64::MAX
                &&& after.tables[i].rows[k].len() == after.tables[i].schema.columns.len()
                &&& all_well_formed(after.tables[i].rows[k])
            } by {
                if k != key {
                    assert(db.tables[i].rows.contains_key(k));
                }
            }
        }
    }
}

/// For all rows deleted from a table whose triggers are installed: after
/// the delete the log holds exactly one entry more, under the next sequence
/// number. The statement of that entry inserts a row with the same key and
/// with the value that each column had, and executing it gives back the
/// tables as they were before the delete.
pub proof fn lemma_delete_is_logged(db: DatabaseModel, name: Seq<char>, key: int)
    requires
        db.well_formed(),
        deleted(db, name, key) is Ok,
        db.tables[position(db.tables, name)->Some_0].rows.contains_key(key),
        db.tables[position(db.tables, name)->Some_0].logged,
    ensures
        ({
            let table = db.tables[position(db.tables, name)->Some_0];
            let after = deleted(db, name, key)->Ok_0;
            let undo = render(
                Statement::Insert {
                    table: name,
                    key,
                    columns: table.schema.columns,
                    values: table.rows[key],
                },
            );
            &&& after.log == db.log.append(undo)
            &&& after.log.entries.len() == db.log.entries.len() + 1
            &&& after.log.entries.last().statement == undo
            &&& after.log.entries.last().sequence == db.log.last + 1
            &&& !after.tables[position(db.tables, name)->Some_0].rows.contains_key(key)
            &&& executed(after.tables, undo) == Ok::<Seq<TableModel>, StoreError>(db.tables)
            &&& after.well_formed()
        }),
{
    let at = position(db.tables, name)->Some_0;
    lemma_position(db.tables, name, 0);
    let table = db.tables[at];
    assert(table.well_formed());
    assert(table.rows.contains_key(key));
    let after = deleted(db, name, key)->Ok_0;
    let statement = Statement::Insert {
        table: name,
        key,
        columns: table.schema.columns,
        values: table.rows[key],
    };
    lemma_delete_logs_insert(
        table.schema,
        RowImage { key, values: table.rows[key] },
        RowImage { key, values: Seq::empty() },
    );
    lemma_read_rendered(statement);
    lemma_position_with_rows(db.tables, at, table.rows.remove(key), name, 0);
    assert(table.rows.remove(key).insert(key, table.rows[key]) =~= table.rows);
    assert(with_rows(after.tables, at, after.tables[at].rows.insert(key, table.rows[key]))
        =~= db.tables);
    lemma_append_well_formed(db.log, render(statement));
    assert forall|i: int| 0 <= i < after.tables.len() implies (
    #[trigger] after.tables[i]).well_formed() by {
        assert(db.tables[i].well_formed());
        if i == at {
            assert forall|k: int| #[trigger] after.tables[i].rows.contains_key(k) implies {
                &&& i64::MIN <= k <= i64::MAX
                &&& after.tables[i].rows[k].len() == after.tables[i].schema.columns.len()
                &&& all_well_formed(after.tables[i].rows[k])
            } by {
                assert(db.tables[i].rows.contains_key(k));
            }
        }
    }
}

/// For all updates of a row of a table whose triggers are installed, from
/// old values to new values: after the update the log holds exactly one
/// entry more, under the next sequence number. The statement of that entry
/// sets every column of the row back to its old value, the row found by its
/// key, and executing it gives back the tables as they were before the
/// update: the key and every other row are untouched.
pub proof fn lemma_update_is_logged(
    db: DatabaseModel,
    name: Seq<char>,
    key: int,
    values: Seq<Scalar>,
)
    requires
        db.well_formed(),
        all_well_formed(values),
        updated(db, name, key, values) is Ok,
        db.tables[position(db.tables, name)->Some_0].rows.contains_key(key),
        db.tables[position(db.tables, name)->Some_0].logged,
    ensures
        ({
            let table = db.tables[position(db.tables, name)->Some_0];
            let after = updated(db, name, key, values)->Ok_0;
            let undo = render(
                Statement::Update {
                    table: name,
                    key,
                    columns: table.schema.columns,
                    values: table.rows[key],
                },
            );
            &&& after.log == db.log.append(undo)
            &&& after.log.entries.len() == db.log.entries.len() + 1
            &&& after.log.entries.last().statement == undo
            &&& after.log.entries.last().sequence == db.log.last + 1
            &&& after.tables[position(db.tables, name)->Some_0].rows[key] == values
            &&& executed(after.tables, undo) == Ok::<Seq<TableModel>, StoreError>(db.tables)
            &&& after.well_formed()
        }),
{
    let at = position(db.tables, name)->Some_0;
    lemma_position(db.tables, name, 0);
    let table = db.tables[at];
    assert(table.well_formed());
    assert(table.rows.contains_key(key));
    let after = updated(db, name, key, values)->Ok_0;
    let statement = Statement::Update {
        table: name,
        key,
        columns: table.schema.columns,
        values: table.rows[key],
    };
    lemma_update_logs_update(
        table.schema,
        RowImage { key, values: table.rows[key] },
        RowImage { key, values: Seq::empty() },
    );
    lemma_read_rendered(statement);
    lemma_position_with_rows(db.tables, at, table.rows.insert(key, values), name, 0);
    assert(table.rows.insert(key, values).insert(key, table.rows[key]) =~= table.rows);
    assert(with_rows(after.tables, at, after.tables[at].rows.insert(key, table.rows[key]))
        =~= db.tables);
    lemma_append_well_formed(db.log, render(statement));
    assert forall|i: int| 0 <= i < after.tables.len() implies (
    #[trigger] after.tables[i]).well_formed() by {
        assert(db.tables[i].well_formed());
        if i == at {
            assert forall|k: int| #[trigger] after.tables[i].rows.contains_key(k) implies {
                &&& i64::MIN <= k <= i64::MAX
                &&& after.tables[i].rows[k].len() == after.tables[i].schema.columns.len()
                &&& all_well_formed(after.tables[i].rows[k])
            } by {
                if k != key {
                    assert(db.tables[i].rows.contains_key(k));
                }
            }
        }
    }
}

/// The store as it is once the one entry that a change has logged is
/// undone: the tables as they were before the change, and the log with the
/// entries it had, its next sequence number used up.
pub open spec fn undone(db: DatabaseModel) -> DatabaseModel {
    DatabaseModel {
        tables: db.tables,
        log: LogModel { entries: db.log.entries, last: db.log.last + 1 },
    }
}

/// Undoing the newest entry of a log whose newest entry gives back the
/// tables `before` leaves those tables and the log without that entry.
proof fn lemma_undo_one(after: DatabaseModel, before: DatabaseModel, undo: Seq<char>)
    requires
        after.log == before.log.append(undo),
        executed(after.tables, undo) == Ok::<Seq<TableModel>, StoreError>(before.tables),
    ensures
        replayed(after, 1) == Ok::<DatabaseModel, (int, StoreError)>(undone(before)),
{
    assert(after.log.entries.last().statement == undo);
    assert(after.log.entries.drop_last() =~= before.log.entries);
    let rest = DatabaseModel {
        tables: before.tables,
        log: LogModel { entries: after.log.entries.drop_last(), last: after.log.last },
    };
    assert(replayed(rest, 0) == Ok::<DatabaseModel, (int, StoreError)>(rest));
}

/// Insert, then undo: the tables are as they were before the insert, and
/// the log holds the entries it held before.
pub proof fn lemma_insert_round_trip(
    db: DatabaseModel,
    name: Seq<char>,
    key: int,
    values: Seq<Scalar>,
)
    requires
        db.well_formed(),
        i64::MIN <= key <= i64::MAX,
        all_well_formed(values),
        inserted(db, name, key, values) is Ok,
        db.tables[position(db.tables, name)->Some_0].logged,
    ensures
        replayed(inserted(db, name, key, values)->Ok_0, 1) == Ok::<
            DatabaseModel,
            (int, StoreError),
        >(undone(db)),
{
    lemma_insert_is_logged(db, name, key, values);
    lemma_undo_one(
        inserted(db, name, key, values)->Ok_0,
        db,
        render(Statement::Delete { table: name, key }),
    );
}

/// Delete, then undo: the tables are as they were before the delete, and
/// the log holds the entries it held before.
pub proof fn lemma_delete_round_trip(db: DatabaseModel, name: Seq<char>, key: int)
    requires
        db.well_formed(),
        deleted(db, name, key) is Ok,
        db.tables[position(db.tables, name)->Some_0].rows.contains_key(key),
        db.tables[position(db.tables, name)->Some_0].logged,
    ensures
        replayed(deleted(db, name, key)->Ok_0, 1) == Ok::<DatabaseModel, (int, StoreError)>(
            undone(db),
        ),
{
    lemma_delete_is_logged(db, name, key);
    let table = db.tables[position(db.tables, name)->Some_0];
    lemma_undo_one(
        deleted(db, name, key)->Ok_0,
        db,
        render(
            Statement::Insert {
                table: name,
                key,
                columns: table.schema.columns,
                values: table.rows[key],
            },
        ),
    );
}

/// Update, then undo: the tables are as they were before the update, and
/// the log holds the entries it held before.
pub proof fn lemma_update_round_trip(
    db: DatabaseModel,
    name: Seq<char>,
    key: int,
    values: Seq<Scalar>,
)
    requires
        db.well_formed(),
        all_well_formed(values),
        updated(db, name, key, values) is Ok,
        db.tables[position(db.tables, name)->Some_0].rows.contains_key(key),
        db.tables[position(db.tables, name)->Some_0].logged,
    ensures
        replayed(updated(db, name, key, values)->Ok_0, 1) == Ok::<
            DatabaseModel,
            (int, StoreError),
        >(undone(db)),
{
    lemma_update_is_logged(db, name, key, values);
    let table = db.tables[position(db.tables, name)->Some_0];
    lemma_undo_one(
        updated(db, name, key, values)->Ok_0,
        db,
        render(
            Statement::Update {
                table: name,
                key,
                columns: table.schema.columns,
                values: table.rows[key],
            },
        ),
    );
}

/// The store after the triggers were installed `times` times.
pub open spec fn installed_repeatedly(db: DatabaseModel, times: nat) -> DatabaseModel
    decreases times,
{
    if times == 0 {
        db
    } else {
        installed(installed_repeatedly(db, (times - 1) as nat))
    }
}

/// Installing the triggers once more changes nothing: however often they
/// are installed, the store is as it is after the first time. Every table
/// then logs, the rows and the log are untouched, and so each change of a
/// row logs exactly one entry, whatever the number of installs.
pub proof fn lemma_install_is_idempotent(db: DatabaseModel, times: nat)
    requires
        times >= 1,
    ensures
        installed_repeatedly(db, times) == installed(db),
        installed(installed(db)) == installed(db),
        installed(db).log == db.log,
        installed(db).tables.len() == db.tables.len(),
        forall|i: int|
            0 <= i < db.tables.len() ==> {
                &&& (#[trigger] installed(db).tables[i]).logged
                &&& installed(db).tables[i].rows == db.tables[i].rows
                &&& installed(db).tables[i].schema == db.tables[i].schema
            },
    decreases times,
{
    assert(installed(installed(db)).tables =~= installed(db).tables);
    if times == 1 {
        assert(installed_repeatedly(db, 0) == db);
    } else {
        lemma_install_is_idempotent(db, (times - 1) as nat);
    }
}

/// However often the triggers were installed, one change of a row logs
/// exactly one entry: an insert, a delete of a row that is there, and an
/// update of a row that is there each make the log one entry longer.
pub proof fn lemma_one_entry_for_each_change(
    db: DatabaseModel,
    times: nat,
    name: Seq<char>,
    key: int,
    values: Seq<Scalar>,
)
    requires
        times >= 1,
        db.well_formed(),
        i64::MIN <= key <= i64::MAX,
        all_well_formed(values),
    ensures
        ({
            let ready = installed_repeatedly(db, times);
            let at = position(ready.tables, name);
            &&& inserted(ready, name, key, values) matches Ok(after) ==> after.log.entries.len()
                == db.log.entries.len() + 1
            &&& (deleted(ready, name, key) matches Ok(after) && at is Some
                && ready.tables[at->Some_0].rows.contains_key(key)) ==> deleted(
                ready,
                name,
                key,
            )->Ok_0.log.entries.len() == db.log.entries.len() + 1
            &&& (updated(ready, name, key, values) matches Ok(after) && at is Some
                && ready.tables[at->Some_0].rows.contains_key(key)) ==> updated(
                ready,
                name,
                key,
                values,
            )->Ok_0.log.entries.len() == db.log.entries.len() + 1
        }),
{
    lemma_install_is_idempotent(db, times);
    let ready = installed(db);
    assert(ready.well_formed()) by {
        assert forall|i: int| 0 <= i < ready.tables.len() implies (
        #[trigger] ready.tables[i]).well_formed() by {
            assert(db.tables[i].well_formed());
        }
    }
    lemma_position(ready.tables, name, 0);
    if inserted(ready, name, key, values) is Ok {
        lemma_insert_is_logged(ready, name, key, values);
    }
    if position(ready.tables, name) is Some && ready.tables[position(
        ready.tables,
        name,
    )->Some_0].rows.contains_key(key) {
        if deleted(ready, name, key) is Ok {
            lemma_delete_is_logged(ready, name, key);
        }
        if updated(ready, name, key, values) is Ok {
            lemma_update_is_logged(ready, name, key, values);
        }
    }
}

} // verus!
