//! Loading a snapshot into the store.
//!
//! An import first empties every table that the snapshot names, children
//! before parents so that no foreign key is left dangling, and then inserts
//! the rows of the snapshot, parents before children. This module plans
//! those steps, and leads the caller through them inside one transaction:
//! if a step fails, the transaction is rolled back and the store is as it
//! was before the import.

use vstd::prelude::*;
use vstd::string::*;
use crate::json::{
    columns_view, parse_snapshot, parsed_snapshot, rows_view, Cell, CellModel, Row, RowModel, Rows,
    RowsModel, Snapshot, SnapshotModel,
};
use crate::parse::parse_integer;
use crate::statement::copy_values;
use crate::text::{join, join_texts, same_text, texts};
use crate::value::{integer_value, real_numeral, values_view, Decimal, Scalar, SqlValue};

verus! {

/// Why an import cannot be planned.
#[derive(Debug, Clone, PartialEq, Eq)]
pub enum ImportError {
    /// The text is not one JSON object; the parser's message is attached.
    Malformed(String),
}

impl ImportError {
    /// What went wrong, in words.
    pub open spec fn message_text(self) -> Seq<char> {
        match self {
            ImportError::Malformed(reason) => "the snapshot is not one JSON object: "@ + reason@,
        }
    }

    /// What went wrong, in words.
    pub fn message(&self) -> (message: String)
        ensures
            message@ == self.message_text(),
    {
        match self {
            ImportError::Malformed(reason) => {
                let mut message = String::new();
                message.append("the snapshot is not one JSON object: ");
                message.append(reason.as_str());
                assert(Seq::<char>::empty() + "the snapshot is not one JSON object: "@
                    == "the snapshot is not one JSON object: "@);
                message
            },
        }
    }
}

/// One step of an import, as a mathematical value.
pub enum StepModel {
    /// Deletes every row of the table.
    Truncate { table: Seq<char> },
    /// Inserts one row, a value bound to each named column.
    Insert { table: Seq<char>, columns: Seq<Seq<char>>, values: Seq<Scalar> },
}

/// One step of an import.
#[derive(Debug, PartialEq, Eq)]
pub enum ImportStep {
    /// Deletes every row of the table.
    Truncate { table: String },
    /// Inserts one row, a value bound to each named column.
    Insert { table: String, columns: Vec<String>, values: Vec<SqlValue> },
}

impl View for ImportStep {
    type V = StepModel;

    open spec fn view(&self) -> StepModel {
        match self {
            ImportStep::Truncate { table } => StepModel::Truncate { table: table@ },
            ImportStep::Insert { table, columns, values } => StepModel::Insert {
                table: table@,
                columns: texts(columns@),
                values: values_view(values@),
            },
        }
    }
}

/// The views of the steps of a vector, in order.
pub open spec fn steps_view(steps: Seq<ImportStep>) -> Seq<StepModel> {
    Seq::new(steps.len(), |i: int| steps[i]@)
}

/// The tables that an import fills, parents before children.
pub open spec fn import_sequence() -> Seq<Seq<char>> {
    seq![
        "settings"@,
        "buyers"@,
        "sellers"@,
        "tree_species"@,
        "wood_pieces"@,
        "wood_piece_offers"@,
    ]
}

/// What stands under the key `name` of a snapshot, if the key is there.
pub open spec fn find_entry(tables: Seq<(Seq<char>, RowsModel)>, name: Seq<char>) -> Option<
    RowsModel,
>
    decreases tables.len(),
{
    if tables.len() == 0 {
        None
    } else if tables[0].0 == name {
        Some(tables[0].1)
    } else {
        find_entry(tables.skip(1), name)
    }
}

/// The value that is bound for a number of a snapshot: the integer itself
/// where the numeral is an integer numeral whose value fits in 64 bits, so
/// that a key or a count comes back as it was written; a real number for
/// every other numeral.
pub open spec fn bound_number(numeral: Seq<char>) -> Scalar {
    match integer_value(numeral) {
        Some(i) => Scalar::Integer(i),
        None => match real_numeral(numeral) {
            Some(written) => Scalar::Real(written),
            None => Scalar::Null,
        },
    }
}

/// The value that is bound for a cell of a snapshot: a text for a string, a
/// number for a number, and `NULL` for everything else.
pub open spec fn bound_value(cell: CellModel) -> Scalar {
    match cell {
        CellModel::Text(t) => Scalar::Text(t),
        CellModel::Number(n) => bound_number(n),
        _ => Scalar::Null,
    }
}

/// The names of the columns of a row, in order.
pub open spec fn column_names(columns: Seq<(Seq<char>, CellModel)>) -> Seq<Seq<char>> {
    Seq::new(columns.len(), |i: int| columns[i].0)
}

/// The values bound for the columns of a row, in order.
pub open spec fn bound_values(columns: Seq<(Seq<char>, CellModel)>) -> Seq<Scalar> {
    Seq::new(columns.len(), |i: int| bound_value(columns[i].1))
}

/// The steps that empty the tables which the snapshot names, among the last
/// `n` of the import sequence, the last of them first.
pub open spec fn truncations(snapshot: SnapshotModel, n: nat) -> Seq<StepModel>
    decreases n,
{
    if n == 0 {
        Seq::empty()
    } else {
        let earlier = truncations(snapshot, (n - 1) as nat);
        let table = import_sequence()[import_sequence().len() - n];
        if find_entry(snapshot.tables, table) is Some {
            earlier.push(StepModel::Truncate { table })
        } else {
            earlier
        }
    }
}

/// The steps that insert the first `n` rows of a table's array: one step for
/// each row that is an object, none for any other element.
pub open spec fn row_insertions(table: Seq<char>, rows: Seq<RowModel>, n: nat) -> Seq<StepModel>
    decreases n,
{
    if n == 0 {
        Seq::empty()
    } else {
        let earlier = row_insertions(table, rows, (n - 1) as nat);
        match rows[n - 1] {
            RowModel::Columns(columns) => earlier.push(
                StepModel::Insert {
                    table,
                    columns: column_names(columns),
                    values: bound_values(columns),
                },
            ),
            RowModel::Other => earlier,
        }
    }
}

/// The steps that insert the rows of one table: those of its array, if the
/// snapshot holds an array under the table's name.
pub open spec fn table_insertions(snapshot: SnapshotModel, table: Seq<char>) -> Seq<StepModel> {
    match find_entry(snapshot.tables, table) {
        Some(RowsModel::Listed(rows)) => row_insertions(table, rows, rows.len()),
        _ => Seq::empty(),
    }
}

/// The steps that insert the rows of the first `n` tables of the import
/// sequence.
pub open spec fn insertions(snapshot: SnapshotModel, n: nat) -> Seq<StepModel>
    decreases n,
{
    if n == 0 {
        Seq::empty()
    } else {
        insertions(snapshot, (n - 1) as nat) + table_insertions(
            snapshot,
            import_sequence()[n - 1],
        )
    }
}

/// The steps of an import: every table that the snapshot names is emptied,
/// children before parents, and then the rows are inserted, parents before
/// children.
pub open spec fn import_plan(snapshot: SnapshotModel) -> Seq<StepModel> {
    truncations(snapshot, import_sequence().len()) + insertions(
        snapshot,
        import_sequence().len(),
    )
}

/// As many question marks as there are columns.
pub open spec fn placeholders(n: nat) -> Seq<Seq<char>> {
    Seq::new(n, |i: int| "?"@)
}

/// The statement of a step, with a question mark where a value is bound.
pub open spec fn step_sql(step: StepModel) -> Seq<char> {
    match step {
        StepModel::Truncate { table } => "DELETE FROM "@ + table + ";"@,
        StepModel::Insert { table, columns, values } => "INSERT INTO "@ + table + " ("@ + join(
            columns,
            ", "@,
        ) + ") VALUES ("@ + join(placeholders(columns.len()), ", "@) + ");"@,
    }
}

impl ImportStep {
    /// The statement of the step, with a question mark where a value is
    /// bound.
    pub fn sql(&self) -> (sql: String)
        ensures
            sql@ == step_sql(self@),
    {
        let mut sql = String::new();
        match self {
            ImportStep::Truncate { table } => {
                sql.append("DELETE FROM ");
                sql.append(table.as_str());
                sql.append(";");
            },
            ImportStep::Insert { table, columns, values } => {
                let mut marks: Vec<String> = Vec::new();
                let mut i: usize = 0;
                while i < columns.len()
                    invariant
                        i <= columns.len(),
                        marks.len() == i,
                        forall|k: int| 0 <= k < i ==> (#[trigger] marks[k])@ == "?"@,
                    decreases columns.len() - i,
                {
                    marks.push("?".to_owned());
                    i += 1;
                }
                assert(texts(marks@) =~= placeholders(columns.len() as nat));
                assert(texts(columns@).len() == columns.len());
                sql.append("INSERT INTO ");
                sql.append(table.as_str());
                sql.append(" (");
                sql.append(join_texts(columns, ", ").as_str());
                sql.append(") VALUES (");
                sql.append(join_texts(&marks, ", ").as_str());
                sql.append(");");
            },
        }
        sql
    }
}

/// What stands under the key `name` of the snapshot, if the key is there.
pub fn entry_of<'a>(snapshot: &'a Snapshot, name: &str) -> (entry: Option<&'a Rows>)
    ensures
        match entry {
            Some(rows) => find_entry(snapshot@.tables, name@) == Some(rows@),
            None => find_entry(snapshot@.tables, name@) is None,
        },
{
    let ghost all = snapshot@.tables;
    let mut i: usize = 0;
    assert(all.skip(0) == all);
    while i < snapshot.tables.len()
        invariant
            i <= snapshot.tables.len(),
            all == snapshot@.tables,
            find_entry(all, name@) == find_entry(all.skip(i as int), name@),
        decreases snapshot.tables.len() - i,
    {
        proof {
            assert(all.skip(i as int)[0] == all[i as int]);
            assert(all.skip(i as int).skip(1) == all.skip(i + 1));
        }
        if same_text(snapshot.tables[i].0.as_str(), name) {
            return Some(&snapshot.tables[i].1);
        }
        i += 1;
    }
    None
}

/// The value that is bound for a cell.
pub fn bind(cell: &Cell) -> (value: SqlValue)
    ensures
        value@ == bound_value(cell@),
{
    match cell {
        Cell::Text(t) => SqlValue::Text(t.clone()),
        Cell::Number(n) => match parse_integer(n.as_str()) {
            Some(i) => SqlValue::Integer(i),
            None => match Decimal::from_number(n.as_str()) {
                Some(d) => SqlValue::Real(d),
                None => SqlValue::Null,
            },
        },
        _ => SqlValue::Null,
    }
}

fn insert_step(table: &str, columns: &Vec<(String, Cell)>) -> (step: ImportStep)
    ensures
        step@ == (StepModel::Insert {
            table: table@,
            columns: column_names(columns_view(columns@)),
            values: bound_values(columns_view(columns@)),
        }),
{
    let mut names: Vec<String> = Vec::new();
    let mut values: Vec<SqlValue> = Vec::new();
    let mut i: usize = 0;
    while i < columns.len()
        invariant
            i <= columns.len(),
            names.len() == i,
            values.len() == i,
            forall|k: int| 0 <= k < i ==> (#[trigger] names[k])@ == columns[k].0@,
            forall|k: int| 0 <= k < i ==> (#[trigger] values[k])@ == bound_value(columns[k].1@),
        decreases columns.len() - i,
    {
        names.push(columns[i].0.clone());
        values.push(bind(&columns[i].1));
        i += 1;
    }
    assert(texts(names@) =~= column_names(columns_view(columns@)));
    assert(values_view(values@) =~= bound_values(columns_view(columns@)));
    ImportStep::Insert { table: table.to_owned(), columns: names, values }
}

fn sequence() -> (tables: Vec<&'static str>)
    ensures
        tables.len() == import_sequence().len(),
        tables.len() == 6,
        forall|i: int| 0 <= i < tables.len() ==> (#[trigger] tables[i])@ == import_sequence()[i],
{
    vec!["settings", "buyers", "sellers", "tree_species", "wood_pieces", "wood_piece_offers"]
}

/// The steps of the import of a snapshot, in the order in which they are to
/// be run.
pub fn plan_import(snapshot: &Snapshot) -> (plan: Vec<ImportStep>)
    ensures
        steps_view(plan@) == import_plan(snapshot@),
{
    let tables = sequence();
    let mut plan: Vec<ImportStep> = Vec::new();
    let mut n: usize = 0;
    assert(steps_view(plan@) =~= truncations(snapshot@, 0));
    while n < tables.len()
        invariant
            n <= tables.len(),
            tables.len() == import_sequence().len(),
            forall|i: int|
                0 <= i < tables.len() ==> (#[trigger] tables[i])@ == import_sequence()[i],
            steps_view(plan@) == truncations(snapshot@, n as nat),
        decreases tables.len() - n,
    {
        let table = tables[tables.len() - 1 - n];
        let ghost earlier = steps_view(plan@);
        if entry_of(snapshot, table).is_some() {
            plan.push(ImportStep::Truncate { table: table.to_owned() });
            assert(steps_view(plan@) =~= earlier.push(StepModel::Truncate { table: table@ }));
        }
        n += 1;
    }
    let ghost emptied = steps_view(plan@);
    let mut t: usize = 0;
    assert(steps_view(plan@) =~= emptied + insertions(snapshot@, 0));
    while t < tables.len()
        invariant
            t <= tables.len(),
            tables.len() == import_sequence().len(),
            forall|i: int|
                0 <= i < tables.len() ==> (#[trigger] tables[i])@ == import_sequence()[i],
            steps_view(plan@) == emptied + insertions(snapshot@, t as nat),
        decreases tables.len() - t,
    {
        let table = tables[t];
        let ghost before = steps_view(plan@);
        match entry_of(snapshot, table) {
            Some(Rows::Listed(rows)) => {
                let mut r: usize = 0;
                assert(steps_view(plan@) =~= before + row_insertions(table@, rows_view(rows@), 0));
                while r < rows.len()
                    invariant
                        r <= rows.len(),
                        steps_view(plan@) == before + row_insertions(
                            table@,
                            rows_view(rows@),
                            r as nat,
                        ),
                    decreases rows.len() - r,
                {
                    let ghost so_far = steps_view(plan@);
                    match &rows[r] {
                        Row::Columns(columns) => {
                            plan.push(insert_step(table, columns));
                            assert(steps_view(plan@) =~= so_far.push(
                                StepModel::Insert {
                                    table: table@,
                                    columns: column_names(columns_view(columns@)),
                                    values: bound_values(columns_view(columns@)),
                                },
                            ));
                        },
                        Row::Other => {},
                    }
                    assert(rows_view(rows@)[r as int] == rows[r as int]@);
                    r += 1;
                }
                assert(steps_view(plan@) =~= before + table_insertions(snapshot@, table@));
            },
            _ => {
                assert(steps_view(plan@) =~= before + table_insertions(snapshot@, table@));
            },
        }
        assert(emptied + insertions(snapshot@, t as nat) + table_insertions(snapshot@, table@)
            =~= emptied + (insertions(snapshot@, t as nat) + table_insertions(
            snapshot@,
            table@,
        )));
        t += 1;
    }
    plan
}

/// The steps of the import of the snapshot that a JSON text holds.
///
/// Fails with `Malformed` exactly when the text is not one JSON object.
pub fn import_from_json(text: &str) -> (plan: Result<Vec<ImportStep>, ImportError>)
    ensures
        match parsed_snapshot(text@) {
            Some(snapshot) => plan matches Ok(steps) && steps_view(steps@) == import_plan(
                snapshot,
            ),
            None => plan matches Err(ImportError::Malformed(_)),
        },
{
    match parse_snapshot(text) {
        Ok(snapshot) => Ok(plan_import(&snapshot)),
        Err(message) => Err(ImportError::Malformed(message)),
    }
}

/// What an import session waits for.
#[derive(Debug, Clone, Copy, PartialEq, Eq, Structural)]
pub enum ImportPhase {
    /// Nothing was asked yet.
    Idle,
    /// The transaction is being opened.
    Beginning,
    /// The step at the session's position is being run.
    Running,
    /// The transaction is being committed.
    Committing,
    /// The transaction is being rolled back.
    RollingBack,
    /// The session is over.
    Finished,
}

/// What the caller reports back to an import session.
#[derive(Debug, Clone, Copy, PartialEq, Eq, Structural)]
pub enum ImportEvent {
    /// The import is to start.
    Begin,
    /// What was asked for was done.
    Done,
    /// What was asked for failed.
    Failed,
}

/// What the caller of an import session is asked to do next.
#[derive(Debug, PartialEq, Eq)]
pub enum ImportAction {
    /// Open a transaction.
    Begin,
    /// Run this statement with these values bound to its question marks.
    Execute { sql: String, values: Vec<SqlValue> },
    /// Commit the transaction.
    Commit,
    /// Roll the transaction back.
    Rollback,
    /// The import is complete: so many steps were run and committed.
    Complete(usize),
    /// The import failed and the store is as it was before. The number is
    /// the position of the step that failed; there is none where opening or
    /// committing the transaction failed.
    Failed(Option<usize>),
    /// The event is no answer to what was asked last; the session stays as
    /// it is.
    Refused,
}

/// What the caller is asked to do next, as a mathematical value.
pub enum ImportActionModel {
    Begin,
    Execute { sql: Seq<char>, values: Seq<Scalar> },
    Commit,
    Rollback,
    Complete(nat),
    Failed(Option<nat>),
    Refused,
}

impl View for ImportAction {
    type V = ImportActionModel;

    open spec fn view(&self) -> ImportActionModel {
        match self {
            ImportAction::Begin => ImportActionModel::Begin,
            ImportAction::Execute { sql, values } => ImportActionModel::Execute {
                sql: sql@,
                values: values_view(values@),
            },
            ImportAction::Commit => ImportActionModel::Commit,
            ImportAction::Rollback => ImportActionModel::Rollback,
            ImportAction::Complete(steps) => ImportActionModel::Complete(*steps as nat),
            ImportAction::Failed(position) => ImportActionModel::Failed(
                match position {
                    Some(p) => Some(*p as nat),
                    None => None,
                },
            ),
            ImportAction::Refused => ImportActionModel::Refused,
        }
    }
}

/// An import session, as a mathematical value: the steps, the position of
/// the step that is being run, what the session waits for, and the position
/// of the step that failed, if one did.
pub struct ImportSessionModel {
    pub plan: Seq<StepModel>,
    pub position: nat,
    pub phase: ImportPhase,
    pub failed: Option<nat>,
}

/// The values that are bound when a step is run: those of an insert, none
/// for a truncation.
pub open spec fn step_values(step: StepModel) -> Seq<Scalar> {
    match step {
        StepModel::Truncate { .. } => Seq::empty(),
        StepModel::Insert { values, .. } => values,
    }
}

/// The action that runs a step.
pub open spec fn run_step(step: StepModel) -> ImportActionModel {
    ImportActionModel::Execute { sql: step_sql(step), values: step_values(step) }
}

/// The next session and the next action. The steps are run inside one
/// transaction, in their order; the first failure ends in a rollback, and
/// only a run without failure is committed.
pub open spec fn import_transition(session: ImportSessionModel, event: ImportEvent) -> (
    ImportSessionModel,
    ImportActionModel,
) {
    match (session.phase, event) {
        (ImportPhase::Idle, ImportEvent::Begin) => (
            ImportSessionModel { phase: ImportPhase::Beginning, ..session },
            ImportActionModel::Begin,
        ),
        (ImportPhase::Beginning, ImportEvent::Done) => if session.plan.len() == 0 {
            (
                ImportSessionModel { phase: ImportPhase::Committing, position: 0, ..session },
                ImportActionModel::Commit,
            )
        } else {
            (
                ImportSessionModel { phase: ImportPhase::Running, position: 0, ..session },
                run_step(session.plan[0]),
            )
        },
        (ImportPhase::Beginning, ImportEvent::Failed) => (
            ImportSessionModel { phase: ImportPhase::Finished, failed: None, ..session },
            ImportActionModel::Failed(None),
        ),
        (ImportPhase::Running, ImportEvent::Done) => if session.position + 1
            < session.plan.len() {
            (
                ImportSessionModel { position: session.position + 1, ..session },
                run_step(session.plan[session.position as int + 1]),
            )
        } else {
            (
                ImportSessionModel { phase: ImportPhase::Committing, ..session },
                ImportActionModel::Commit,
            )
        },
        (ImportPhase::Running, ImportEvent::Failed) => (
            ImportSessionModel {
                phase: ImportPhase::RollingBack,
                failed: Some(session.position),
                ..session
            },
            ImportActionModel::Rollback,
        ),
        (ImportPhase::Committing, ImportEvent::Done) => (
            ImportSessionModel { phase: ImportPhase::Finished, ..session },
            ImportActionModel::Complete(session.plan.len()),
        ),
        (ImportPhase::Committing, ImportEvent::Failed) => (
            ImportSessionModel { phase: ImportPhase::RollingBack, failed: None, ..session },
            ImportActionModel::Rollback,
        ),
        (ImportPhase::RollingBack, ImportEvent::Done) => (
            ImportSessionModel { phase: ImportPhase::Finished, ..session },
            ImportActionModel::Failed(session.failed),
        ),
        (ImportPhase::RollingBack, ImportEvent::Failed) => (
            ImportSessionModel { phase: ImportPhase::Finished, ..session },
            ImportActionModel::Failed(session.failed),
        ),
        _ => (session, ImportActionModel::Refused),
    }
}

/// An import against a stored database, step by step: all of the snapshot
/// goes in, or nothing changes.
#[derive(Debug, PartialEq, Eq)]
pub struct ImportSession {
    plan: Vec<ImportStep>,
    position: usize,
    phase: ImportPhase,
    failed: Option<usize>,
}

impl View for ImportSession {
    type V = ImportSessionModel;

    closed spec fn view(&self) -> ImportSessionModel {
        ImportSessionModel {
            plan: steps_view(self.plan@),
            position: self.position as nat,
            phase: self.phase,
            failed: match self.failed {
                Some(p) => Some(p as nat),
                None => None,
            },
        }
    }
}

/// The session that has not begun yet, for the given steps.
pub open spec fn fresh_session(plan: Seq<StepModel>) -> ImportSessionModel {
    ImportSessionModel { plan, position: 0, phase: ImportPhase::Idle, failed: None }
}

fn run(step: &ImportStep) -> (action: ImportAction)
    ensures
        action@ == run_step(step@),
{
    let sql = step.sql();
    match step {
        ImportStep::Truncate { .. } => {
            let values: Vec<SqlValue> = Vec::new();
            assert(values_view(values@) =~= Seq::<Scalar>::empty());
            ImportAction::Execute { sql, values }
        },
        ImportStep::Insert { values, .. } => ImportAction::Execute {
            sql,
            values: copy_values(values),
        },
    }
}

impl ImportSession {
    /// A session that will run the given steps.
    pub fn new(plan: Vec<ImportStep>) -> (session: ImportSession)
        ensures
            session@ == fresh_session(steps_view(plan@)),
    {
        ImportSession { plan, position: 0, phase: ImportPhase::Idle, failed: None }
    }

    /// A session that will import the snapshot that a JSON text holds.
    ///
    /// Fails with `Malformed` exactly when the text is not one JSON object.
    pub fn from_json(text: &str) -> (session: Result<ImportSession, ImportError>)
        ensures
            match parsed_snapshot(text@) {
                Some(snapshot) => session matches Ok(made) && made@ == fresh_session(
                    import_plan(snapshot),
                ),
                None => session matches Err(ImportError::Malformed(_)),
            },
    {
        match import_from_json(text) {
            Ok(plan) => Ok(ImportSession::new(plan)),
            Err(e) => Err(e),
        }
    }

    /// What the session waits for.
    pub fn phase(&self) -> (phase: ImportPhase)
        ensures
            phase == self@.phase,
    {
        self.phase
    }

    /// Takes the caller's report and says what to do next.
    pub fn step(&mut self, event: ImportEvent) -> (action: ImportAction)
        ensures
            final(self)@ == import_transition(old(self)@, event).0,
            action@ == import_transition(old(self)@, event).1,
    {
        match self.phase {
            ImportPhase::Idle => match event {
                ImportEvent::Begin => {
                    self.phase = ImportPhase::Beginning;
                    ImportAction::Begin
                },
                _ => ImportAction::Refused,
            },
            ImportPhase::Beginning => match event {
                ImportEvent::Done => {
                    self.position = 0;
                    if self.plan.len() == 0 {
                        self.phase = ImportPhase::Committing;
                        ImportAction::Commit
                    } else {
                        self.phase = ImportPhase::Running;
                        run(&self.plan[0])
                    }
                },
                ImportEvent::Failed => {
                    self.phase = ImportPhase::Finished;
                    self.failed = None;
                    ImportAction::Failed(None)
                },
                _ => ImportAction::Refused,
            },
            ImportPhase::Running => match event {
                ImportEvent::Done => {
                    if self.position < self.plan.len() && self.position + 1 < self.plan.len() {
                        self.position = self.position + 1;
                        run(&self.plan[self.position])
                    } else {
                        self.phase = ImportPhase::Committing;
                        ImportAction::Commit
                    }
                },
                ImportEvent::Failed => {
                    self.phase = ImportPhase::RollingBack;
                    self.failed = Some(self.position);
                    ImportAction::Rollback
                },
                _ => ImportAction::Refused,
            },
            ImportPhase::Committing => match event {
                ImportEvent::Done => {
                    self.phase = ImportPhase::Finished;
                    ImportAction::Complete(self.plan.len())
                },
                ImportEvent::Failed => {
                    self.phase = ImportPhase::RollingBack;
                    self.failed = None;
                    ImportAction::Rollback
                },
                _ => ImportAction::Refused,
            },
            ImportPhase::RollingBack => match event {
                ImportEvent::Begin => ImportAction::Refused,
                _ => {
                    self.phase = ImportPhase::Finished;
                    ImportAction::Failed(self.failed)
                },
            },
            ImportPhase::Finished => ImportAction::Refused,
        }
    }
}

/// The actions that a session asks for, one after another, when it is
/// given the events one after another.
pub open spec fn asked(session: ImportSessionModel, events: Seq<ImportEvent>) -> Seq<
    ImportActionModel,
>
    decreases events.len(),
{
    if events.len() == 0 {
        Seq::empty()
    } else {
        seq![import_transition(session, events[0]).1] + asked(
            import_transition(session, events[0]).0,
            events.skip(1),
        )
    }
}

/// The session that is running the step at position `position`.
pub open spec fn running(plan: Seq<StepModel>, position: nat) -> ImportSessionModel {
    ImportSessionModel { plan, position, phase: ImportPhase::Running, failed: None }
}

/// `count` reports of success in a row.
pub open spec fn successes(count: nat) -> Seq<ImportEvent> {
    Seq::new(count, |i: int| ImportEvent::Done)
}

/// The actions that run the steps from position `from` up to, but not
/// including, position `to`.
pub open spec fn runs(plan: Seq<StepModel>, from: int, to: int) -> Seq<ImportActionModel> {
    Seq::new((to - from) as nat, |i: int| run_step(plan[from + i]))
}

proof fn lemma_running_until_failure(plan: Seq<StepModel>, position: int, failing: int)
    requires
        0 <= position <= failing < plan.len(),
    ensures
        asked(
            running(plan, position as nat),
            successes((failing - position) as nat).push(ImportEvent::Failed).push(
                ImportEvent::Done,
            ),
        ) == runs(plan, position + 1, failing + 1).push(ImportActionModel::Rollback).push(
            ImportActionModel::Failed(Some(failing as nat)),
        ),
    decreases failing - position,
{
    let events = successes((failing - position) as nat).push(ImportEvent::Failed).push(
        ImportEvent::Done,
    );
    let session = running(plan, position as nat);
    if position == failing {
        let rolling = import_transition(session, ImportEvent::Failed).0;
        assert(events[0] == ImportEvent::Failed);
        assert(events.skip(1) =~= seq![ImportEvent::Done]);
        assert(events.skip(1).skip(1) =~= Seq::<ImportEvent>::empty());
        assert(asked(rolling, events.skip(1)) =~= seq![ImportActionModel::Failed(Some(failing as nat))]) by {
            assert(asked(
                import_transition(rolling, ImportEvent::Done).0,
                events.skip(1).skip(1),
            ) =~= Seq::<ImportActionModel>::empty());
        }
        assert(runs(plan, position + 1, failing + 1) =~= Seq::<ImportActionModel>::empty());
        assert(asked(session, events) =~= Seq::<ImportActionModel>::empty().push(
            ImportActionModel::Rollback,
        ).push(ImportActionModel::Failed(Some(failing as nat))));
    } else {
        assert(events[0] == ImportEvent::Done);
        assert(events.skip(1) =~= successes((failing - position - 1) as nat).push(
            ImportEvent::Failed,
        ).push(ImportEvent::Done));
        assert(import_transition(session, ImportEvent::Done).0 == running(plan, (position + 1) as nat));
        lemma_running_until_failure(plan, position + 1, failing);
        assert(seq![run_step(plan[position + 1])] + runs(plan, position + 2, failing + 1)
            =~= runs(plan, position + 1, failing + 1));
        assert(asked(session, events) =~= runs(plan, position + 1, failing + 1).push(
            ImportActionModel::Rollback,
        ).push(ImportActionModel::Failed(Some(failing as nat))));
    }
}

proof fn lemma_running_to_the_end(plan: Seq<StepModel>, position: int)
    requires
        0 <= position < plan.len(),
    ensures
        asked(running(plan, position as nat), successes((plan.len() - position + 1) as nat)) == runs(
            plan,
            position + 1,
            plan.len() as int,
        ).push(ImportActionModel::Commit).push(ImportActionModel::Complete(plan.len())),
    decreases plan.len() - position,
{
    let events = successes((plan.len() - position + 1) as nat);
    let session = running(plan, position as nat);
    assert(events[0] == ImportEvent::Done);
    if position + 1 == plan.len() {
        let committing = import_transition(session, ImportEvent::Done).0;
        assert(events.skip(1) =~= seq![ImportEvent::Done]);
        assert(events.skip(1).skip(1) =~= Seq::<ImportEvent>::empty());
        assert(asked(committing, events.skip(1)) =~= seq![
            ImportActionModel::Complete(plan.len()),
        ]) by {
            assert(asked(
                import_transition(committing, ImportEvent::Done).0,
                events.skip(1).skip(1),
            ) =~= Seq::<ImportActionModel>::empty());
        }
        assert(runs(plan, position + 1, plan.len() as int) =~= Seq::<ImportActionModel>::empty());
        assert(asked(session, events) =~= Seq::<ImportActionModel>::empty().push(
            ImportActionModel::Commit,
        ).push(ImportActionModel::Complete(plan.len())));
    } else {
        assert(events.skip(1) =~= successes((plan.len() - position) as nat));
        assert(import_transition(session, ImportEvent::Done).0 == running(plan, (position + 1) as nat));
        lemma_running_to_the_end(plan, position + 1);
        assert(seq![run_step(plan[position + 1])] + runs(plan, position + 2, plan.len() as int)
            =~= runs(plan, position + 1, plan.len() as int));
        assert(asked(session, events) =~= runs(plan, position + 1, plan.len() as int).push(
            ImportActionModel::Commit,
        ).push(ImportActionModel::Complete(plan.len())));
    }
}

/// An import whose step at position `failing` fails, after every step
/// before it has succeeded, changes nothing: the session opens a
/// transaction, runs the steps up to the failing one in their order, and
/// then asks for the rollback of the transaction and for nothing else
/// before it reports the failing step. No commit is ever asked for.
pub proof fn lemma_failed_import_is_rolled_back(plan: Seq<StepModel>, failing: nat)
    requires
        failing < plan.len(),
    ensures
        asked(
            fresh_session(plan),
            seq![ImportEvent::Begin] + successes((failing + 1) as nat).push(ImportEvent::Failed).push(
                ImportEvent::Done,
            ),
        ) == seq![ImportActionModel::Begin] + runs(plan, 0, failing as int + 1).push(
            ImportActionModel::Rollback,
        ).push(ImportActionModel::Failed(Some(failing))),
{
    let tail = successes((failing + 1) as nat).push(ImportEvent::Failed).push(ImportEvent::Done);
    let events = seq![ImportEvent::Begin] + tail;
    let beginning = import_transition(fresh_session(plan), ImportEvent::Begin).0;
    assert(events[0] == ImportEvent::Begin);
    assert(events.skip(1) =~= tail);
    assert(tail[0] == ImportEvent::Done);
    assert(tail.skip(1) =~= successes(failing).push(ImportEvent::Failed).push(ImportEvent::Done));
    assert(import_transition(beginning, ImportEvent::Done).0 == running(plan, 0));
    lemma_running_until_failure(plan, 0, failing as int);
    assert(seq![run_step(plan[0])] + runs(plan, 1, failing as int + 1) =~= runs(plan, 0, failing as int + 1));
    assert(asked(beginning, tail) =~= runs(plan, 0, failing as int + 1).push(
        ImportActionModel::Rollback,
    ).push(ImportActionModel::Failed(Some(failing))));
}

/// An import whose steps all succeed runs every step of the plan, in its
/// order and inside one transaction, and commits once, after the last.
pub proof fn lemma_whole_import_is_committed(plan: Seq<StepModel>)
    ensures
        asked(
            fresh_session(plan),
            seq![ImportEvent::Begin] + successes((plan.len() + 2) as nat),
        ) == seq![ImportActionModel::Begin] + runs(plan, 0, plan.len() as int).push(
            ImportActionModel::Commit,
        ).push(ImportActionModel::Complete(plan.len())),
{
    let events = seq![ImportEvent::Begin] + successes((plan.len() + 2) as nat);
    let beginning = import_transition(fresh_session(plan), ImportEvent::Begin).0;
    assert(events[0] == ImportEvent::Begin);
    let tail = events.skip(1);
    assert(tail =~= successes((plan.len() + 2) as nat));
    assert(tail[0] == ImportEvent::Done);
    if plan.len() == 0 {
        let committing = import_transition(beginning, ImportEvent::Done).0;
        assert(tail.skip(1) =~= seq![ImportEvent::Done]);
        assert(tail.skip(1).skip(1) =~= Seq::<ImportEvent>::empty());
        assert(asked(committing, tail.skip(1)) =~= seq![ImportActionModel::Complete(0)]) by {
            assert(asked(
                import_transition(committing, ImportEvent::Done).0,
                tail.skip(1).skip(1),
            ) =~= Seq::<ImportActionModel>::empty());
        }
        assert(runs(plan, 0, 0) =~= Seq::<ImportActionModel>::empty());
        assert(asked(beginning, tail) =~= Seq::<ImportActionModel>::empty().push(
            ImportActionModel::Commit,
        ).push(ImportActionModel::Complete(0)));
    } else {
        assert(tail.skip(1) =~= successes((plan.len() + 1) as nat));
        assert(import_transition(beginning, ImportEvent::Done).0 == running(plan, 0));
        lemma_running_to_the_end(plan, 0);
        assert(seq![run_step(plan[0])] + runs(plan, 1, plan.len() as int) =~= runs(
            plan,
            0,
            plan.len() as int,
        ));
        assert(asked(beginning, tail) =~= runs(plan, 0, plan.len() as int).push(
            ImportActionModel::Commit,
        ).push(ImportActionModel::Complete(plan.len())));
    }
}

} // verus!
