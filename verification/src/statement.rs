//! Inverse statements: the corrective statements that the undo log holds.
//!
//! An inverse statement undoes one insert, update or delete. It is written as
//! one self-contained line of SQL with every value embedded as a literal.

use vstd::prelude::*;
use vstd::string::*;
use crate::schema::{check_identifier, check_schema, is_identifier, TableSchema, TrackedTable};
use crate::text::{
    copy_texts, decimal, each_after, join, lemma_each_after_push, lemma_join_push, push_decimal,
    texts,
};
use crate::value::{push_quoted, quote, values_view, Scalar, SqlValue};

verus! {

/// An inverse statement, as a mathematical value.
pub enum Statement {
    /// Removes the row of the given key: the inverse of an insert.
    Delete { table: Seq<char>, key: int },
    /// Puts back a row with its key and its column values: the inverse of a
    /// delete.
    Insert { table: Seq<char>, key: int, columns: Seq<Seq<char>>, values: Seq<Scalar> },
    /// Gives the columns of the row of the given key their earlier values:
    /// the inverse of an update.
    Update { table: Seq<char>, key: int, columns: Seq<Seq<char>>, values: Seq<Scalar> },
}

/// Each value as it is written into a statement.
pub open spec fn quoted_all(values: Seq<Scalar>) -> Seq<Seq<char>> {
    Seq::new(values.len(), |i: int| quote(values[i]))
}

/// One `column=value` text for each column.
pub open spec fn assignments(columns: Seq<Seq<char>>, values: Seq<Scalar>) -> Seq<Seq<char>> {
    Seq::new(columns.len(), |i: int| columns[i] + "="@ + quote(values[i]))
}

/// Whether each of the values is well formed.
pub open spec fn all_well_formed(values: Seq<Scalar>) -> bool {
    forall|i: int| 0 <= i < values.len() ==> (#[trigger] values[i]).well_formed()
}

impl Statement {
    /// The table that the statement changes.
    pub open spec fn table(self) -> Seq<char> {
        match self {
            Statement::Delete { table, .. } => table,
            Statement::Insert { table, .. } => table,
            Statement::Update { table, .. } => table,
        }
    }

    /// The key of the row that the statement changes.
    pub open spec fn key(self) -> int {
        match self {
            Statement::Delete { key, .. } => key,
            Statement::Insert { key, .. } => key,
            Statement::Update { key, .. } => key,
        }
    }

    /// The names are identifiers, the key fits in 64 bits, and a statement
    /// that carries values has one well-formed value for each column of a
    /// well-formed schema.
    pub open spec fn well_formed(self) -> bool {
        match self {
            Statement::Delete { table, key } => {
                &&& is_identifier(table)
                &&& i64::MIN <= key <= i64::MAX
            },
            Statement::Insert { table, key, columns, values } => {
                &&& (TableSchema { name: table, columns }).well_formed()
                &&& i64::MIN <= key <= i64::MAX
                &&& values.len() == columns.len()
                &&& all_well_formed(values)
            },
            Statement::Update { table, key, columns, values } => {
                &&& (TableSchema { name: table, columns }).well_formed()
                &&& i64::MIN <= key <= i64::MAX
                &&& values.len() == columns.len()
                &&& all_well_formed(values)
            },
        }
    }
}

/// The text of a statement.
pub open spec fn render(statement: Statement) -> Seq<char> {
    match statement {
        Statement::Delete { table, key } => "DELETE FROM "@ + table + " WHERE id="@ + decimal(key),
        Statement::Insert { table, key, columns, values } => "INSERT INTO "@ + table + " (id"@
            + each_after(", "@, columns) + ") VALUES ("@ + decimal(key) + each_after(
            ", "@,
            quoted_all(values),
        ) + ");"@,
        Statement::Update { table, key, columns, values } => "UPDATE "@ + table + " SET "@ + join(
            assignments(columns, values),
            ", "@,
        ) + " WHERE id="@ + decimal(key),
    }
}

/// The statement of the given kind with the given parts. A delete carries
/// neither columns nor values.
pub open spec fn statement_of(
    kind: StatementKind,
    table: Seq<char>,
    key: int,
    columns: Seq<Seq<char>>,
    values: Seq<Scalar>,
) -> Statement {
    match kind {
        StatementKind::Delete => Statement::Delete { table, key },
        StatementKind::Insert => Statement::Insert { table, key, columns, values },
        StatementKind::Update => Statement::Update { table, key, columns, values },
    }
}

/// What a statement does: delete, insert or update.
#[derive(Debug, Clone, Copy, PartialEq, Eq, Structural)]
pub enum StatementKind {
    Delete,
    Insert,
    Update,
}

/// An inverse statement.
#[derive(Debug, PartialEq, Eq)]
pub struct InverseStatement {
    kind: StatementKind,
    table: String,
    key: i64,
    columns: Vec<String>,
    values: Vec<SqlValue>,
}

impl View for InverseStatement {
    type V = Statement;

    closed spec fn view(&self) -> Statement {
        match self.kind {
            StatementKind::Delete => Statement::Delete { table: self.table@, key: self.key as int },
            StatementKind::Insert => Statement::Insert {
                table: self.table@,
                key: self.key as int,
                columns: texts(self.columns@),
                values: values_view(self.values@),
            },
            StatementKind::Update => Statement::Update {
                table: self.table@,
                key: self.key as int,
                columns: texts(self.columns@),
                values: values_view(self.values@),
            },
        }
    }
}

/// A copy of each value of `values`, in order.
pub fn copy_values(values: &Vec<SqlValue>) -> (copies: Vec<SqlValue>)
    ensures
        values_view(copies@) == values_view(values@),
        copies.len() == values.len(),
{
    let mut copies: Vec<SqlValue> = Vec::new();
    let mut i: usize = 0;
    while i < values.len()
        invariant
            i <= values.len(),
            copies.len() == i,
            forall|k: int| 0 <= k < i ==> (#[trigger] copies[k])@ == values[k]@,
        decreases values.len() - i,
    {
        copies.push(values[i].clone());
        i += 1;
    }
    assert(values_view(copies@) =~= values_view(values@));
    copies
}

/// Values in hand are always well formed: a real number is only ever made
/// from a numeral.
pub(crate) fn check_values(values: &Vec<SqlValue>)
    ensures
        all_well_formed(values_view(values@)),
{
    let mut i: usize = 0;
    while i < values.len()
        invariant
            i <= values.len(),
            forall|k: int| 0 <= k < i ==> (#[trigger] values_view(values@)[k]).well_formed(),
        decreases values.len() - i,
    {
        match &values[i] {
            SqlValue::Real(d) => {
                proof {
                    use_type_invariant(d);
                }
            },
            _ => {},
        }
        i += 1;
    }
}

impl InverseStatement {
    #[verifier::type_invariant]
    spec fn valid(self) -> bool {
        &&& self@.well_formed()
        &&& self.kind == StatementKind::Delete ==> self.columns@.len() == 0 && self.values@.len() == 0
    }

    /// The statement of the given kind with the given parts.
    ///
    /// `None` exactly when the parts do not make a well-formed statement, or
    /// when columns or values are given for a delete.
    pub fn new(
        kind: StatementKind,
        table: &str,
        key: i64,
        columns: Vec<String>,
        values: Vec<SqlValue>,
    ) -> (made: Option<InverseStatement>)
        ensures
            match made {
                Some(s) => s@ == statement_of(
                    kind,
                    table@,
                    key as int,
                    texts(columns@),
                    values_view(values@),
                ) && s@.well_formed() && (kind == StatementKind::Delete ==> columns.len() == 0
                    && values.len() == 0),
                None => !statement_of(
                    kind,
                    table@,
                    key as int,
                    texts(columns@),
                    values_view(values@),
                ).well_formed() || (kind == StatementKind::Delete && (columns.len() > 0
                    || values.len() > 0)),
            },
    {
        match kind {
            StatementKind::Delete => {
                if !check_identifier(table) || columns.len() > 0 || values.len() > 0 {
                    return None;
                }
            },
            _ => {
                if !check_schema(table, &columns) || values.len() != columns.len() {
                    return None;
                }
                check_values(&values);
            },
        }
        Some(InverseStatement { kind, table: table.to_owned(), key, columns, values })
    }

    /// The statement that takes back the insert of the row of key `key` into
    /// `table`: it deletes that row.
    pub fn undo_insert(table: &TrackedTable, key: i64) -> (inverse: InverseStatement)
        ensures
            inverse@ == (Statement::Delete { table: table@.name, key: key as int }),
            inverse@.well_formed(),
    {
        InverseStatement {
            kind: StatementKind::Delete,
            table: table.name().to_owned(),
            key,
            columns: Vec::new(),
            values: Vec::new(),
        }
    }

    /// The statement that takes back the delete of a row of `table`: it
    /// inserts the row again, under its key and with the values it had.
    ///
    /// `None` exactly when there is not one value for each column.
    pub fn undo_delete(table: &TrackedTable, key: i64, old_values: &Vec<SqlValue>) -> (inverse:
        Option<InverseStatement>)
        ensures
            match inverse {
                Some(s) => old_values.len() == table@.columns.len() && s@ == (Statement::Insert {
                    table: table@.name,
                    key: key as int,
                    columns: table@.columns,
                    values: values_view(old_values@),
                }) && s@.well_formed(),
                None => old_values.len() != table@.columns.len(),
            },
    {
        let columns = table.columns();
        if old_values.len() != columns.len() {
            return None;
        }
        check_values(old_values);
        Some(
            InverseStatement {
                kind: StatementKind::Insert,
                table: table.name().to_owned(),
                key,
                columns: copy_texts(columns),
                values: copy_values(old_values),
            },
        )
    }

    /// The statement that takes back an update of the row of key `key` of
    /// `table`: it gives every column the value it had before.
    ///
    /// `None` exactly when there is not one value for each column.
    pub fn undo_update(table: &TrackedTable, key: i64, old_values: &Vec<SqlValue>) -> (inverse:
        Option<InverseStatement>)
        ensures
            match inverse {
                Some(s) => old_values.len() == table@.columns.len() && s@ == (Statement::Update {
                    table: table@.name,
                    key: key as int,
                    columns: table@.columns,
                    values: values_view(old_values@),
                }) && s@.well_formed(),
                None => old_values.len() != table@.columns.len(),
            },
    {
        let columns = table.columns();
        if old_values.len() != columns.len() {
            return None;
        }
        check_values(old_values);
        Some(
            InverseStatement {
                kind: StatementKind::Update,
                table: table.name().to_owned(),
                key,
                columns: copy_texts(columns),
                values: copy_values(old_values),
            },
        )
    }

    /// Whether the statement deletes, inserts or updates.
    pub fn kind(&self) -> (kind: StatementKind)
        ensures
            kind == StatementKind::Delete <==> self@ is Delete,
            kind == StatementKind::Insert <==> self@ is Insert,
            kind == StatementKind::Update <==> self@ is Update,
    {
        self.kind
    }

    /// The table that the statement changes.
    pub fn table(&self) -> (table: &str)
        ensures
            table@ == self@.table(),
            self@.well_formed(),
    {
        proof {
            use_type_invariant(self);
        }
        self.table.as_str()
    }

    /// The key of the row that the statement changes.
    pub fn key(&self) -> (key: i64)
        ensures
            key == self@.key(),
    {
        self.key
    }

    /// The columns that the statement writes; none for a delete.
    pub fn columns(&self) -> (columns: &Vec<String>)
        ensures
            match self@ {
                Statement::Delete { .. } => columns.len() == 0,
                Statement::Insert { columns: c, .. } => texts(columns@) == c,
                Statement::Update { columns: c, .. } => texts(columns@) == c,
            },
    {
        proof {
            use_type_invariant(self);
        }
        &self.columns
    }

    /// The values that the statement writes, one for each column.
    pub fn values(&self) -> (values: &Vec<SqlValue>)
        ensures
            match self@ {
                Statement::Delete { .. } => values.len() == 0,
                Statement::Insert { values: v, .. } => values_view(values@) == v,
                Statement::Update { values: v, .. } => values_view(values@) == v,
            },
    {
        proof {
            use_type_invariant(self);
        }
        &self.values
    }

    /// The text of the statement.
    pub fn to_sql(&self) -> (sql: String)
        ensures
            sql@ == render(self@),
    {
        proof {
            use_type_invariant(self);
        }
        let mut sql = String::new();
        match self.kind {
            StatementKind::Delete => {
                sql.append("DELETE FROM ");
                sql.append(self.table.as_str());
                sql.append(" WHERE id=");
                push_decimal(&mut sql, self.key);
            },
            StatementKind::Insert => {
                sql.append("INSERT INTO ");
                sql.append(self.table.as_str());
                sql.append(" (id");
                push_names(&mut sql, &self.columns);
                sql.append(") VALUES (");
                push_decimal(&mut sql, self.key);
                push_values(&mut sql, &self.values);
                sql.append(");");
            },
            StatementKind::Update => {
                sql.append("UPDATE ");
                sql.append(self.table.as_str());
                sql.append(" SET ");
                push_assignments(&mut sql, &self.columns, &self.values);
                sql.append(" WHERE id=");
                push_decimal(&mut sql, self.key);
            },
        }
        sql
    }
}

impl Clone for InverseStatement {
    fn clone(&self) -> (copy: InverseStatement)
        ensures
            copy@ == self@,
    {
        proof {
            use_type_invariant(self);
        }
        InverseStatement {
            kind: self.kind,
            table: self.table.clone(),
            key: self.key,
            columns: copy_texts(&self.columns),
            values: copy_values(&self.values),
        }
    }
}

/// Appends each name after a comma and a space.
fn push_names(out: &mut String, names: &Vec<String>)
    ensures
        final(out)@ == old(out)@ + each_after(", "@, texts(names@)),
{
    let ghost before = out@;
    let ghost all = texts(names@);
    let mut i: usize = 0;
    while i < names.len()
        invariant
            i <= names.len(),
            all == texts(names@),
            out@ == before + each_after(", "@, all.take(i as int)),
        decreases names.len() - i,
    {
        out.append(", ");
        out.append(names[i].as_str());
        proof {
            lemma_each_after_push(", "@, all.take(i as int), names[i as int]@);
            assert(all.take(i + 1) == all.take(i as int).push(names[i as int]@));
        }
        i += 1;
    }
    proof {
        assert(all.take(names.len() as int) == all);
    }
}

/// Appends each value, as it is written into a statement, after a comma and
/// a space.
fn push_values(out: &mut String, values: &Vec<SqlValue>)
    ensures
        final(out)@ == old(out)@ + each_after(", "@, quoted_all(values_view(values@))),
{
    let ghost before = out@;
    let ghost all = quoted_all(values_view(values@));
    let mut i: usize = 0;
    while i < values.len()
        invariant
            i <= values.len(),
            all == quoted_all(values_view(values@)),
            out@ == before + each_after(", "@, all.take(i as int)),
        decreases values.len() - i,
    {
        out.append(", ");
        push_quoted(out, &values[i]);
        proof {
            lemma_each_after_push(", "@, all.take(i as int), quote(values[i as int]@));
            assert(all.take(i + 1) == all.take(i as int).push(quote(values[i as int]@)));
        }
        i += 1;
    }
    proof {
        assert(all.take(values.len() as int) == all);
    }
}

/// Appends `column=value` for each column, with a comma and a space between
/// neighbours.
fn push_assignments(out: &mut String, columns: &Vec<String>, values: &Vec<SqlValue>)
    requires
        columns.len() == values.len(),
    ensures
        final(out)@ == old(out)@ + join(
            assignments(texts(columns@), values_view(values@)),
            ", "@,
        ),
{
    let ghost before = out@;
    let ghost all = assignments(texts(columns@), values_view(values@));
    let mut i: usize = 0;
    while i < columns.len()
        invariant
            i <= columns.len(),
            columns.len() == values.len(),
            all == assignments(texts(columns@), values_view(values@)),
            out@ == before + join(all.take(i as int), ", "@),
        decreases columns.len() - i,
    {
        if i > 0 {
            out.append(", ");
        }
        out.append(columns[i].as_str());
        out.append("=");
        push_quoted(out, &values[i]);
        proof {
            let one = columns[i as int]@ + "="@ + quote(values[i as int]@);
            lemma_join_push(all.take(i as int), ", "@, one);
            assert(all.take(i + 1) == all.take(i as int).push(one));
        }
        i += 1;
    }
    proof {
        assert(all.take(columns.len() as int) == all);
    }
}

} // verus!
