//! Templates of inverse statements.
//!
//! A trigger cannot know the row it will fire for, so what it logs is an
//! expression: literal text and quoted column values of the row, written one
//! after another. A template holds such an expression piece by piece, each
//! quoted value named by the position of its column in the table's schema.
//! From the pieces come both the SQL source of the expression and the text
//! that it yields for a given row.

use vstd::prelude::*;
use vstd::string::*;
use crate::schema::{
    find_table, is_identifier, is_identifier_char, lookup, ConfigurationError, TableSchema,
    TrackedTable,
};
use crate::statement::{assignments, quoted_all, render, Statement};
use crate::text::{
    concat, decimal, each_after, join, lemma_concat_push, lemma_each_after_push, lemma_join_push,
    push_decimal, texts,
};
use crate::value::{
    escaped, push_quoted, push_string_literal, quote, string_literal, values_view, Scalar,
    SqlValue,
};

verus! {

/// One piece of a logged expression, as a mathematical value.
pub enum Piece {
    /// Literal text.
    Literal(Seq<char>),
    /// The quoted key of the row before the change.
    OldKey,
    /// The quoted key of the row after the change.
    NewKey,
    /// The quoted value that the column at this position had before the
    /// change.
    OldColumn(int),
}

/// A row as a trigger sees it: its key and the values of its recorded
/// columns, in the order of the schema.
pub struct RowImage {
    pub key: int,
    pub values: Seq<Scalar>,
}

/// The SQL source of one piece.
pub open spec fn piece_source(columns: Seq<Seq<char>>, piece: Piece) -> Seq<char> {
    match piece {
        Piece::Literal(t) => string_literal(t),
        Piece::OldKey => "quote(OLD.id)"@,
        Piece::NewKey => "quote(NEW.id)"@,
        Piece::OldColumn(i) => "quote(OLD."@ + columns[i] + ")"@,
    }
}

/// The SQL source of each piece.
pub open spec fn piece_sources(columns: Seq<Seq<char>>, pieces: Seq<Piece>) -> Seq<Seq<char>> {
    Seq::new(pieces.len(), |i: int| piece_source(columns, pieces[i]))
}

/// The SQL source of the expression: the pieces chained by the
/// concatenation operator.
pub open spec fn expression(columns: Seq<Seq<char>>, pieces: Seq<Piece>) -> Seq<char> {
    join(piece_sources(columns, pieces), " || "@)
}

/// The text that one piece yields when the trigger fires: `old` is the row
/// before the change, `new` the row after it.
pub open spec fn piece_value(piece: Piece, old: RowImage, new: RowImage) -> Seq<char> {
    match piece {
        Piece::Literal(t) => t,
        Piece::OldKey => decimal(old.key),
        Piece::NewKey => decimal(new.key),
        Piece::OldColumn(i) => quote(old.values[i]),
    }
}

/// The text that each piece yields.
pub open spec fn piece_values(pieces: Seq<Piece>, old: RowImage, new: RowImage) -> Seq<Seq<char>> {
    Seq::new(pieces.len(), |i: int| piece_value(pieces[i], old, new))
}

/// The text that the expression yields when the trigger fires.
pub open spec fn evaluate(pieces: Seq<Piece>, old: RowImage, new: RowImage) -> Seq<char> {
    concat(piece_values(pieces, old, new))
}

/// The pieces that log the inverse of an insert: a delete of the new row by
/// its key.
pub open spec fn delete_key_pieces(schema: TableSchema) -> Seq<Piece> {
    seq![Piece::Literal("DELETE FROM "@ + schema.name + " WHERE id="@), Piece::NewKey]
}

/// The head of the pieces that log the inverse of a delete, up to the value
/// of the `n`-th column.
pub open spec fn insert_replay_head(schema: TableSchema, n: nat) -> Seq<Piece>
    decreases n,
{
    if n == 0 {
        seq![
            Piece::Literal(
                "INSERT INTO "@ + schema.name + " (id"@ + each_after(", "@, schema.columns)
                    + ") VALUES ("@,
            ),
            Piece::OldKey,
        ]
    } else {
        insert_replay_head(schema, (n - 1) as nat).push(Piece::Literal(", "@)).push(
            Piece::OldColumn(n - 1),
        )
    }
}

/// The pieces that log the inverse of a delete: an insert of the old row,
/// under its key and with the values of all its columns.
pub open spec fn insert_replay_pieces(schema: TableSchema) -> Seq<Piece> {
    insert_replay_head(schema, schema.columns.len()).push(Piece::Literal(");"@))
}

/// The literal text in front of the value of the column at position `i` of
/// an update.
pub open spec fn update_set_prefix(schema: TableSchema, i: int) -> Seq<char> {
    if i == 0 {
        "UPDATE "@ + schema.name + " SET "@ + schema.columns[i] + "="@
    } else {
        ", "@ + schema.columns[i] + "="@
    }
}

/// The head of the pieces that log the inverse of an update, up to the value
/// of the `n`-th column.
pub open spec fn update_set_head(schema: TableSchema, n: nat) -> Seq<Piece>
    decreases n,
{
    if n == 0 {
        Seq::empty()
    } else {
        update_set_head(schema, (n - 1) as nat).push(
            Piece::Literal(update_set_prefix(schema, n - 1)),
        ).push(Piece::OldColumn(n - 1))
    }
}

/// The pieces that log the inverse of an update: an update that sets every
/// column of the row back to its old value.
pub open spec fn update_set_pieces(schema: TableSchema) -> Seq<Piece> {
    update_set_head(schema, schema.columns.len()).push(Piece::Literal(" WHERE id="@)).push(
        Piece::OldKey,
    )
}

/// Whether every column that the pieces name is a column of the schema.
pub open spec fn pieces_fit(pieces: Seq<Piece>, columns: int) -> bool {
    forall|i: int|
        0 <= i < pieces.len() ==> ((#[trigger] pieces[i]) matches Piece::OldColumn(c) ==> 0 <= c
            < columns)
}

/// A template, as a mathematical value: the schema of its table and the
/// pieces of its expression.
pub struct TemplateModel {
    pub schema: TableSchema,
    pub pieces: Seq<Piece>,
}

/// One piece of a logged expression.
#[derive(Debug, PartialEq, Eq)]
pub enum Segment {
    /// Literal text.
    Literal(String),
    /// The quoted key of the row before the change.
    OldKey,
    /// The quoted key of the row after the change.
    NewKey,
    /// The quoted value that the column at this position had before the
    /// change.
    OldColumn(usize),
}

impl View for Segment {
    type V = Piece;

    open spec fn view(&self) -> Piece {
        match self {
            Segment::Literal(t) => Piece::Literal(t@),
            Segment::OldKey => Piece::OldKey,
            Segment::NewKey => Piece::NewKey,
            Segment::OldColumn(i) => Piece::OldColumn(*i as int),
        }
    }
}

/// The views of the segments of a vector, in order.
pub open spec fn pieces_of(segments: Seq<Segment>) -> Seq<Piece> {
    Seq::new(segments.len(), |i: int| segments[i]@)
}

/// The expression that a trigger logs, for one table.
#[derive(Debug, PartialEq, Eq)]
pub struct Template {
    table: TrackedTable,
    segments: Vec<Segment>,
}

impl View for Template {
    type V = TemplateModel;

    closed spec fn view(&self) -> TemplateModel {
        TemplateModel { schema: self.table@, pieces: pieces_of(self.segments@) }
    }
}

/// The template that the insert trigger of `table` logs: a delete of the new
/// row by its key.
pub fn delete_key_template(table: &TrackedTable) -> (template: Template)
    ensures
        template@.schema == table@,
        template@.pieces == delete_key_pieces(table@),
{
    let mut head = String::new();
    head.append("DELETE FROM ");
    head.append(table.name());
    head.append(" WHERE id=");
    let mut segments: Vec<Segment> = Vec::new();
    segments.push(Segment::Literal(head));
    segments.push(Segment::NewKey);
    assert(pieces_of(segments@) =~= delete_key_pieces(table@));
    Template { table: table.clone(), segments }
}

/// The template that the delete trigger of `table` logs: an insert of the
/// old row, under its key and with the values of all its columns.
pub fn insert_replay_template(table: &TrackedTable) -> (template: Template)
    ensures
        template@.schema == table@,
        template@.pieces == insert_replay_pieces(table@),
{
    let columns = table.columns();
    let mut head = String::new();
    head.append("INSERT INTO ");
    head.append(table.name());
    head.append(" (id");
    let ghost before = head@;
    let mut i: usize = 0;
    while i < columns.len()
        invariant
            i <= columns.len(),
            texts(columns@) == table@.columns,
            head@ == before + each_after(", "@, table@.columns.take(i as int)),
        decreases columns.len() - i,
    {
        head.append(", ");
        head.append(columns[i].as_str());
        proof {
            lemma_each_after_push(", "@, table@.columns.take(i as int), columns[i as int]@);
            assert(table@.columns.take(i + 1) == table@.columns.take(i as int).push(
                columns[i as int]@,
            ));
        }
        i += 1;
    }
    proof {
        assert(table@.columns.take(columns.len() as int) == table@.columns);
    }
    head.append(") VALUES (");
    let mut segments: Vec<Segment> = Vec::new();
    segments.push(Segment::Literal(head));
    segments.push(Segment::OldKey);
    assert(pieces_of(segments@) =~= insert_replay_head(table@, 0));
    let mut n: usize = 0;
    while n < columns.len()
        invariant
            n <= columns.len(),
            texts(columns@) == table@.columns,
            pieces_of(segments@) == insert_replay_head(table@, n as nat),
            pieces_fit(pieces_of(segments@), columns.len() as int),
        decreases columns.len() - n,
    {
        let ghost earlier = pieces_of(segments@);
        segments.push(Segment::Literal(", ".to_owned()));
        segments.push(Segment::OldColumn(n));
        assert(pieces_of(segments@) =~= earlier.push(Piece::Literal(", "@)).push(
            Piece::OldColumn(n as int),
        ));
        n += 1;
    }
    let ghost earlier = pieces_of(segments@);
    segments.push(Segment::Literal(");".to_owned()));
    assert(pieces_of(segments@) =~= earlier.push(Piece::Literal(");"@)));
    Template { table: table.clone(), segments }
}

/// The template that the update trigger of `table` logs: an update that sets
/// every column of the row back to its old value.
pub fn update_set_template(table: &TrackedTable) -> (template: Template)
    ensures
        template@.schema == table@,
        template@.pieces == update_set_pieces(table@),
{
    let columns = table.columns();
    let mut segments: Vec<Segment> = Vec::new();
    assert(pieces_of(segments@) =~= update_set_head(table@, 0));
    let mut n: usize = 0;
    while n < columns.len()
        invariant
            n <= columns.len(),
            texts(columns@) == table@.columns,
            pieces_of(segments@) == update_set_head(table@, n as nat),
            pieces_fit(pieces_of(segments@), columns.len() as int),
        decreases columns.len() - n,
    {
        let mut prefix = String::new();
        if n == 0 {
            prefix.append("UPDATE ");
            prefix.append(table.name());
            prefix.append(" SET ");
        } else {
            prefix.append(", ");
        }
        prefix.append(columns[n].as_str());
        prefix.append("=");
        assert(prefix@ == update_set_prefix(table@, n as int)) by {
            assert(texts(columns@)[n as int] == columns[n as int]@);
            if n != 0 {
                assert(Seq::<char>::empty() + ", "@ == ", "@);
            }
        }
        let ghost earlier = pieces_of(segments@);
        segments.push(Segment::Literal(prefix));
        segments.push(Segment::OldColumn(n));
        assert(pieces_of(segments@) =~= earlier.push(
            Piece::Literal(update_set_prefix(table@, n as int)),
        ).push(Piece::OldColumn(n as int)));
        n += 1;
    }
    let ghost earlier = pieces_of(segments@);
    segments.push(Segment::Literal(" WHERE id=".to_owned()));
    segments.push(Segment::OldKey);
    assert(pieces_of(segments@) =~= earlier.push(Piece::Literal(" WHERE id="@)).push(
        Piece::OldKey,
    ));
    Template { table: table.clone(), segments }
}

impl Template {
    #[verifier::type_invariant]
    spec fn valid(self) -> bool {
        pieces_fit(pieces_of(self.segments@), self.table@.columns.len() as int)
    }

    /// The table that the template is for.
    pub fn table(&self) -> (table: &TrackedTable)
        ensures
            table@ == self@.schema,
            pieces_fit(self@.pieces, self@.schema.columns.len() as int),
    {
        proof {
            use_type_invariant(self);
        }
        &self.table
    }

    /// The pieces of the expression, in order.
    pub fn segments(&self) -> (segments: &Vec<Segment>)
        ensures
            pieces_of(segments@) == self@.pieces,
    {
        &self.segments
    }

    /// The SQL source of the expression.
    pub fn expression(&self) -> (source: String)
        ensures
            source@ == expression(self@.schema.columns, self@.pieces),
    {
        proof {
            use_type_invariant(self);
        }
        let columns = self.table.columns();
        let ghost all = piece_sources(self@.schema.columns, self@.pieces);
        let mut source = String::new();
        let mut i: usize = 0;
        while i < self.segments.len()
            invariant
                i <= self.segments.len(),
                texts(columns@) == self.table@.columns,
                all == piece_sources(self.table@.columns, pieces_of(self.segments@)),
                pieces_fit(pieces_of(self.segments@), columns.len() as int),
                source@ == join(all.take(i as int), " || "@),
            decreases self.segments.len() - i,
        {
            if i > 0 {
                source.append(" || ");
            }
            let ghost start = source@;
            match &self.segments[i] {
                Segment::Literal(t) => push_string_literal(&mut source, t.as_str()),
                Segment::OldKey => source.append("quote(OLD.id)"),
                Segment::NewKey => source.append("quote(NEW.id)"),
                Segment::OldColumn(c) => {
                    assert(pieces_of(self.segments@)[i as int] == Piece::OldColumn(*c as int));
                    source.append("quote(OLD.");
                    source.append(columns[*c].as_str());
                    source.append(")");
                    assert(texts(columns@)[*c as int] == columns[*c as int]@);
                },
            }
            proof {
                let one = piece_source(self.table@.columns, self.segments[i as int]@);
                assert(source@ == start + one);
                lemma_join_push(all.take(i as int), " || "@, one);
                assert(all.take(i + 1) == all.take(i as int).push(one));
            }
            i += 1;
        }
        proof {
            assert(all.take(self.segments.len() as int) == all);
        }
        source
    }

    /// The text that the expression yields when the trigger fires for the
    /// row of key `old_key` and values `old_values` before the change and
    /// of key `new_key` after it.
    ///
    /// `None` exactly when there is not one old value for each column.
    pub fn evaluate(&self, old_key: i64, old_values: &Vec<SqlValue>, new_key: i64) -> (logged:
        Option<String>)
        ensures
            match logged {
                Some(text) => old_values.len() == self@.schema.columns.len() && text@ == evaluate(
                    self@.pieces,
                    RowImage { key: old_key as int, values: values_view(old_values@) },
                    RowImage { key: new_key as int, values: Seq::empty() },
                ),
                None => old_values.len() != self@.schema.columns.len(),
            },
    {
        proof {
            use_type_invariant(self);
        }
        let columns = self.table.columns();
        if old_values.len() != columns.len() {
            return None;
        }
        let ghost old = RowImage { key: old_key as int, values: values_view(old_values@) };
        let ghost new = RowImage { key: new_key as int, values: Seq::empty() };
        let ghost all = piece_values(self@.pieces, old, new);
        let mut text = String::new();
        let mut i: usize = 0;
        while i < self.segments.len()
            invariant
                i <= self.segments.len(),
                old_values.len() == columns.len(),
                old == (RowImage { key: old_key as int, values: values_view(old_values@) }),
                new == (RowImage { key: new_key as int, values: Seq::empty() }),
                all == piece_values(pieces_of(self.segments@), old, new),
                pieces_fit(pieces_of(self.segments@), columns.len() as int),
                text@ == concat(all.take(i as int)),
            decreases self.segments.len() - i,
        {
            let ghost start = text@;
            match &self.segments[i] {
                Segment::Literal(t) => text.append(t.as_str()),
                Segment::OldKey => push_decimal(&mut text, old_key),
                Segment::NewKey => push_decimal(&mut text, new_key),
                Segment::OldColumn(c) => {
                    assert(pieces_of(self.segments@)[i as int] == Piece::OldColumn(*c as int));
                    push_quoted(&mut text, &old_values[*c]);
                },
            }
            proof {
                let one = piece_value(self.segments[i as int]@, old, new);
                assert(text@ == start + one);
                lemma_concat_push(all.take(i as int), one);
                assert(all.take(i + 1) == all.take(i as int).push(one));
            }
            i += 1;
        }
        proof {
            assert(all.take(self.segments.len() as int) == all);
        }
        Some(text)
    }
}

/// For each column the text that sets it back to its old value inside an
/// update that is written as a string literal: the literal is closed in
/// front of the quoted old value and opened again behind it.
pub open spec fn update_set_fragments(columns: Seq<Seq<char>>) -> Seq<Seq<char>> {
    Seq::new(
        columns.len(),
        |i: int| columns[i] + "=' || quote(OLD."@ + columns[i] + ") || '"@,
    )
}

/// For each column its quoted old value inside an insert that is written as
/// a string literal: the literal is closed in front of the value and opened
/// again behind it.
pub open spec fn delete_insert_fragments(columns: Seq<Seq<char>>) -> Seq<Seq<char>> {
    Seq::new(columns.len(), |i: int| "' || quote(OLD."@ + columns[i] + ") || '"@)
}

/// The assignments of an update trigger's statement for a tracked table,
/// one for each recorded column, separated by a comma and a space. The
/// text is meant to stand inside a string literal.
///
/// Fails with `UnknownTable` exactly when no table of that name is enrolled.
pub fn get_update_set_statements(table: &str) -> (fragment: Result<String, ConfigurationError>)
    ensures
        match lookup(table@) {
            Some(schema) => fragment matches Ok(text) && text@ == join(
                update_set_fragments(schema.columns),
                ", "@,
            ),
            None => fragment matches Err(e) && e == ConfigurationError::UnknownTable,
        },
{
    let found = match find_table(table) {
        Ok(found) => found,
        Err(e) => {
            return Err(e);
        },
    };
    let columns = found.columns();
    let ghost all = update_set_fragments(texts(columns@));
    let mut text = String::new();
    let mut i: usize = 0;
    while i < columns.len()
        invariant
            i <= columns.len(),
            all == update_set_fragments(texts(columns@)),
            text@ == join(all.take(i as int), ", "@),
        decreases columns.len() - i,
    {
        if i > 0 {
            text.append(", ");
        }
        text.append(columns[i].as_str());
        text.append("=' || quote(OLD.");
        text.append(columns[i].as_str());
        text.append(") || '");
        proof {
            let one = columns[i as int]@ + "=' || quote(OLD."@ + columns[i as int]@ + ") || '"@;
            lemma_join_push(all.take(i as int), ", "@, one);
            assert(all.take(i + 1) == all.take(i as int).push(one));
        }
        i += 1;
    }
    proof {
        assert(all.take(columns.len() as int) == all);
    }
    Ok(text)
}

/// The values of a delete trigger's statement for a tracked table, one
/// quoted old value for each recorded column, separated by a comma and a
/// space. The text is meant to stand inside a string literal.
///
/// Fails with `UnknownTable` exactly when no table of that name is enrolled.
pub fn get_delete_insert_statements(table: &str) -> (fragment: Result<String, ConfigurationError>)
    ensures
        match lookup(table@) {
            Some(schema) => fragment matches Ok(text) && text@ == join(
                delete_insert_fragments(schema.columns),
                ", "@,
            ),
            None => fragment matches Err(e) && e == ConfigurationError::UnknownTable,
        },
{
    let found = match find_table(table) {
        Ok(found) => found,
        Err(e) => {
            return Err(e);
        },
    };
    let columns = found.columns();
    let ghost all = delete_insert_fragments(texts(columns@));
    let mut text = String::new();
    let mut i: usize = 0;
    while i < columns.len()
        invariant
            i <= columns.len(),
            all == delete_insert_fragments(texts(columns@)),
            text@ == join(all.take(i as int), ", "@),
        decreases columns.len() - i,
    {
        if i > 0 {
            text.append(", ");
        }
        text.append("' || quote(OLD.");
        text.append(columns[i].as_str());
        text.append(") || '");
        proof {
            let one = "' || quote(OLD."@ + columns[i as int]@ + ") || '"@;
            assert(Seq::<char>::empty() + "' || quote(OLD."@ == "' || quote(OLD."@);
            lemma_join_push(all.take(i as int), ", "@, one);
            assert(all.take(i + 1) == all.take(i as int).push(one));
        }
        i += 1;
    }
    proof {
        assert(all.take(columns.len() as int) == all);
    }
    Ok(text)
}

/// The text that one more piece adds to what the pieces yield.
proof fn lemma_evaluate_push(pieces: Seq<Piece>, piece: Piece, old: RowImage, new: RowImage)
    ensures
        evaluate(pieces.push(piece), old, new) == evaluate(pieces, old, new) + piece_value(
            piece,
            old,
            new,
        ),
{
    assert(piece_values(pieces.push(piece), old, new) =~= piece_values(pieces, old, new).push(
        piece_value(piece, old, new),
    ));
    lemma_concat_push(piece_values(pieces, old, new), piece_value(piece, old, new));
}

proof fn lemma_insert_replay_head(schema: TableSchema, n: nat, old: RowImage, new: RowImage)
    requires
        n <= schema.columns.len(),
        old.values.len() == schema.columns.len(),
    ensures
        evaluate(insert_replay_head(schema, n), old, new) == "INSERT INTO "@ + schema.name
            + " (id"@ + each_after(", "@, schema.columns) + ") VALUES ("@ + decimal(old.key)
            + each_after(", "@, quoted_all(old.values).take(n as int)),
    decreases n,
{
    let head = "INSERT INTO "@ + schema.name + " (id"@ + each_after(", "@, schema.columns)
        + ") VALUES ("@;
    if n == 0 {
        assert(insert_replay_head(schema, 0) =~= Seq::<Piece>::empty().push(
            Piece::Literal(head),
        ).push(Piece::OldKey));
        lemma_evaluate_push(Seq::<Piece>::empty().push(Piece::Literal(head)), Piece::OldKey, old, new);
        lemma_evaluate_push(Seq::<Piece>::empty(), Piece::Literal(head), old, new);
        assert(piece_values(Seq::<Piece>::empty(), old, new) =~= Seq::<Seq<char>>::empty());
        assert(quoted_all(old.values).take(0) =~= Seq::<Seq<char>>::empty());
        assert(evaluate(insert_replay_head(schema, 0), old, new) =~= head + decimal(old.key));
        assert(head + decimal(old.key) + Seq::<char>::empty() =~= head + decimal(old.key));
    } else {
        let earlier = insert_replay_head(schema, (n - 1) as nat);
        lemma_insert_replay_head(schema, (n - 1) as nat, old, new);
        lemma_evaluate_push(earlier, Piece::Literal(", "@), old, new);
        lemma_evaluate_push(earlier.push(Piece::Literal(", "@)), Piece::OldColumn(n - 1), old, new);
        let quoted = quoted_all(old.values);
        lemma_each_after_push(", "@, quoted.take(n - 1), quote(old.values[n - 1]));
        assert(quoted.take(n as int) =~= quoted.take(n - 1).push(quote(old.values[n - 1])));
        assert(evaluate(insert_replay_head(schema, n), old, new) =~= head + decimal(old.key)
            + each_after(", "@, quoted.take(n - 1)) + ", "@ + quote(old.values[n - 1]));
        assert(head + decimal(old.key) + (each_after(", "@, quoted.take(n - 1)) + ", "@ + quote(
            old.values[n - 1],
        )) =~= head + decimal(old.key) + each_after(", "@, quoted.take(n - 1)) + ", "@ + quote(
            old.values[n - 1],
        ));
    }
}

proof fn lemma_update_set_head(schema: TableSchema, n: nat, old: RowImage, new: RowImage)
    requires
        0 < n <= schema.columns.len(),
        old.values.len() == schema.columns.len(),
    ensures
        evaluate(update_set_head(schema, n), old, new) == "UPDATE "@ + schema.name + " SET "@
            + join(assignments(schema.columns, old.values).take(n as int), ", "@),
    decreases n,
{
    let head = "UPDATE "@ + schema.name + " SET "@;
    let all = assignments(schema.columns, old.values);
    let one = schema.columns[n - 1] + "="@ + quote(old.values[n - 1]);
    let earlier = update_set_head(schema, (n - 1) as nat);
    lemma_evaluate_push(earlier, Piece::Literal(update_set_prefix(schema, n - 1)), old, new);
    lemma_evaluate_push(
        earlier.push(Piece::Literal(update_set_prefix(schema, n - 1))),
        Piece::OldColumn(n - 1),
        old,
        new,
    );
    lemma_join_push(all.take(n - 1), ", "@, one);
    assert(all.take(n as int) =~= all.take(n - 1).push(one));
    if n == 1 {
        assert(earlier =~= Seq::<Piece>::empty());
        assert(piece_values(earlier, old, new) =~= Seq::<Seq<char>>::empty());
        assert(evaluate(update_set_head(schema, n), old, new) =~= head + schema.columns[0] + "="@
            + quote(old.values[0]));
        assert(head + one =~= head + schema.columns[0] + "="@ + quote(old.values[0]));
    } else {
        lemma_update_set_head(schema, (n - 1) as nat, old, new);
        assert(evaluate(update_set_head(schema, n), old, new) =~= head + join(
            all.take(n - 1),
            ", "@,
        ) + (", "@ + schema.columns[n - 1] + "="@) + quote(old.values[n - 1]));
        assert(head + (join(all.take(n - 1), ", "@) + ", "@ + one) =~= head + join(
            all.take(n - 1),
            ", "@,
        ) + (", "@ + schema.columns[n - 1] + "="@) + quote(old.values[n - 1]));
    }
}

/// What the insert trigger logs for a new row is the statement that deletes
/// that row by its key.
pub proof fn lemma_insert_logs_delete(schema: TableSchema, old: RowImage, new: RowImage)
    ensures
        evaluate(delete_key_pieces(schema), old, new) == render(
            Statement::Delete { table: schema.name, key: new.key },
        ),
{
    let head = "DELETE FROM "@ + schema.name + " WHERE id="@;
    assert(delete_key_pieces(schema) =~= Seq::<Piece>::empty().push(Piece::Literal(head)).push(
        Piece::NewKey,
    ));
    lemma_evaluate_push(Seq::<Piece>::empty().push(Piece::Literal(head)), Piece::NewKey, old, new);
    lemma_evaluate_push(Seq::<Piece>::empty(), Piece::Literal(head), old, new);
    assert(piece_values(Seq::<Piece>::empty(), old, new) =~= Seq::<Seq<char>>::empty());
    assert(evaluate(delete_key_pieces(schema), old, new) =~= head + decimal(new.key));
}

/// What the delete trigger logs for an old row is the statement that inserts
/// that row again: the same key, and every column with the value it had, the
/// names and the values in the order of the schema.
pub proof fn lemma_delete_logs_insert(schema: TableSchema, old: RowImage, new: RowImage)
    requires
        old.values.len() == schema.columns.len(),
    ensures
        evaluate(insert_replay_pieces(schema), old, new) == render(
            Statement::Insert {
                table: schema.name,
                key: old.key,
                columns: schema.columns,
                values: old.values,
            },
        ),
{
    let n = schema.columns.len();
    lemma_insert_replay_head(schema, n, old, new);
    lemma_evaluate_push(insert_replay_head(schema, n), Piece::Literal(");"@), old, new);
    assert(quoted_all(old.values).take(n as int) =~= quoted_all(old.values));
}

/// What the update trigger logs for an old row is the statement that sets
/// every column of that row back to the value it had, the row found by its
/// key.
pub proof fn lemma_update_logs_update(schema: TableSchema, old: RowImage, new: RowImage)
    requires
        schema.columns.len() > 0,
        old.values.len() == schema.columns.len(),
    ensures
        evaluate(update_set_pieces(schema), old, new) == render(
            Statement::Update {
                table: schema.name,
                key: old.key,
                columns: schema.columns,
                values: old.values,
            },
        ),
{
    let n = schema.columns.len();
    let head = update_set_head(schema, n);
    lemma_update_set_head(schema, n, old, new);
    lemma_evaluate_push(head, Piece::Literal(" WHERE id="@), old, new);
    lemma_evaluate_push(head.push(Piece::Literal(" WHERE id="@)), Piece::OldKey, old, new);
    assert(assignments(schema.columns, old.values).take(n as int) =~= assignments(
        schema.columns,
        old.values,
    ));
}

/// Whether a text holds no single quote.
pub open spec fn quote_free(t: Seq<char>) -> bool {
    forall|i: int| 0 <= i < t.len() ==> #[trigger] t[i] != '\''
}

/// A text without single quotes is escaped as itself.
proof fn lemma_escaped_plain(t: Seq<char>)
    requires
        quote_free(t),
    ensures
        escaped(t) == t,
    decreases t.len(),
{
    if t.len() > 0 {
        assert(quote_free(t.skip(1))) by {
            assert forall|i: int| 0 <= i < t.skip(1).len() implies #[trigger] t.skip(1)[i]
                != '\'' by {
                assert(t.skip(1)[i] == t[i + 1]);
            }
        }
        lemma_escaped_plain(t.skip(1));
        assert(t[0] != '\'');
        assert(seq![t[0]] + t.skip(1) =~= t);
    } else {
        assert(t =~= Seq::<char>::empty());
    }
}

/// A text without single quotes is a string literal as it stands, between
/// two single quotes.
proof fn lemma_plain_literal(t: Seq<char>)
    requires
        quote_free(t),
    ensures
        string_literal(t) == "'"@ + t + "'"@,
{
    reveal_strlit("'");
    lemma_escaped_plain(t);
    assert(seq!['\''] =~= "'"@);
}

/// An identifier holds no single quote.
proof fn lemma_identifier_quote_free(name: Seq<char>)
    requires
        is_identifier(name),
    ensures
        quote_free(name),
{
    assert forall|i: int| 0 <= i < name.len() implies #[trigger] name[i] != '\'' by {
        assert(is_identifier_char(name[i]));
    }
}

/// Two texts without single quotes make a text without single quotes.
proof fn lemma_quote_free_concat(a: Seq<char>, b: Seq<char>)
    requires
        quote_free(a),
        quote_free(b),
    ensures
        quote_free(a + b),
{
    assert forall|i: int| 0 <= i < (a + b).len() implies #[trigger] (a + b)[i] != '\'' by {
        if i < a.len() {
            assert((a + b)[i] == a[i]);
        } else {
            assert((a + b)[i] == b[i - a.len()]);
        }
    }
}

/// The source of the pieces with one more piece.
proof fn lemma_expression_push(columns: Seq<Seq<char>>, pieces: Seq<Piece>, piece: Piece)
    ensures
        expression(columns, pieces.push(piece)) == if pieces.len() == 0 {
            piece_source(columns, piece)
        } else {
            expression(columns, pieces) + " || "@ + piece_source(columns, piece)
        },
{
    assert(piece_sources(columns, pieces.push(piece)) =~= piece_sources(columns, pieces).push(
        piece_source(columns, piece),
    ));
    lemma_join_push(piece_sources(columns, pieces), " || "@, piece_source(columns, piece));
}

/// The literal text in front of the value of each column of an update holds
/// no single quote.
proof fn lemma_update_prefix_plain(schema: TableSchema, i: int)
    requires
        schema.well_formed(),
        0 <= i < schema.columns.len(),
    ensures
        quote_free(update_set_prefix(schema, i)),
{
    lemma_identifier_quote_free(schema.name);
    lemma_identifier_quote_free(schema.columns[i]);
    assert(quote_free("UPDATE "@)) by {
        reveal_strlit("UPDATE ");
    }
    assert(quote_free(" SET "@)) by {
        reveal_strlit(" SET ");
    }
    assert(quote_free("="@)) by {
        reveal_strlit("=");
    }
    assert(quote_free(", "@)) by {
        reveal_strlit(", ");
    }
    if i == 0 {
        lemma_quote_free_concat("UPDATE "@, schema.name);
        lemma_quote_free_concat("UPDATE "@ + schema.name, " SET "@);
        lemma_quote_free_concat("UPDATE "@ + schema.name + " SET "@, schema.columns[i]);
        lemma_quote_free_concat(
            "UPDATE "@ + schema.name + " SET "@ + schema.columns[i],
            "="@,
        );
    } else {
        lemma_quote_free_concat(", "@, schema.columns[i]);
        lemma_quote_free_concat(", "@ + schema.columns[i], "="@);
    }
}

/// How the texts that close and open a string literal around a quoted value
/// are put together.
proof fn lemma_literal_seams()
    ensures
        "=' || quote(OLD."@ == "="@ + "'"@ + " || "@ + "quote(OLD."@,
        ") || '"@ == ")"@ + " || "@ + "'"@,
        "' || quote(OLD."@ == "'"@ + " || "@ + "quote(OLD."@,
        " WHERE id=' || quote(OLD.id)"@ == " WHERE id="@ + "'"@ + " || "@ + "quote(OLD.id)"@,
        "'UPDATE "@ == "'"@ + "UPDATE "@,
        "'INSERT INTO "@ == "'"@ + "INSERT INTO "@,
        ") VALUES (' || quote(OLD.id) || '"@ == ") VALUES ("@ + "'"@ + " || "@ + "quote(OLD.id)"@
            + " || "@ + "'"@,
        " (id, "@ == " (id"@ + ", "@,
        ");'"@ == ");"@ + "'"@,
{
    reveal_strlit("=' || quote(OLD.");
    reveal_strlit(") || '");
    reveal_strlit("' || quote(OLD.");
    reveal_strlit(" WHERE id=' || quote(OLD.id)");
    reveal_strlit("'UPDATE ");
    reveal_strlit("'INSERT INTO ");
    reveal_strlit(") VALUES (' || quote(OLD.id) || '");
    reveal_strlit(" (id, ");
    reveal_strlit(");'");
    reveal_strlit("=");
    reveal_strlit("'");
    reveal_strlit(" || ");
    reveal_strlit("quote(OLD.");
    reveal_strlit(")");
    reveal_strlit(" WHERE id=");
    reveal_strlit("quote(OLD.id)");
    reveal_strlit("UPDATE ");
    reveal_strlit("INSERT INTO ");
    reveal_strlit(") VALUES (");
    reveal_strlit(" (id");
    reveal_strlit(", ");
    reveal_strlit(");");
    assert("=' || quote(OLD."@ =~= "="@ + "'"@ + " || "@ + "quote(OLD."@);
    assert(") || '"@ =~= ")"@ + " || "@ + "'"@);
    assert("' || quote(OLD."@ =~= "'"@ + " || "@ + "quote(OLD."@);
    assert(" WHERE id=' || quote(OLD.id)"@ =~= " WHERE id="@ + "'"@ + " || "@ + "quote(OLD.id)"@);
    assert("'UPDATE "@ =~= "'"@ + "UPDATE "@);
    assert("'INSERT INTO "@ =~= "'"@ + "INSERT INTO "@);
    assert(") VALUES (' || quote(OLD.id) || '"@ =~= ") VALUES ("@ + "'"@ + " || "@
        + "quote(OLD.id)"@ + " || "@ + "'"@);
    assert(" (id, "@ =~= " (id"@ + ", "@);
    assert(");'"@ =~= ");"@ + "'"@);
}

/// Regrouping: the source of an update's first assignment, left open for
/// the next literal, is the literal's text with the first fragment.
proof fn lemma_first_assignment_source(
    q: Seq<char>,
    o: Seq<char>,
    head: Seq<char>,
    column: Seq<char>,
    eq: Seq<char>,
    open: Seq<char>,
    close: Seq<char>,
)
    ensures
        ({
            let prefix = head + column + eq;
            let literal = q + prefix + q;
            let value = open + column + close;
            let fragment = column + (eq + q + o + open) + column + (close + o + q);
            literal + o + value + o + q == q + head + fragment
        }),
{
    let prefix = head + column + eq;
    let literal = q + prefix + q;
    let value = open + column + close;
    let fragment = column + (eq + q + o + open) + column + (close + o + q);
    assert(literal + o + value + o + q =~= q + head + fragment);
}

/// Regrouping: the source of a further assignment, left open for the next
/// literal, adds a separator and the next fragment to what was written.
proof fn lemma_next_assignment_source(
    before: Seq<char>,
    q: Seq<char>,
    o: Seq<char>,
    separator: Seq<char>,
    column: Seq<char>,
    eq: Seq<char>,
    open: Seq<char>,
    close: Seq<char>,
)
    ensures
        ({
            let prefix = separator + column + eq;
            let literal = q + prefix + q;
            let value = open + column + close;
            let fragment = column + (eq + q + o + open) + column + (close + o + q);
            before + o + literal + o + value + o + q == before + o + q + separator + fragment
        }),
{
    let prefix = separator + column + eq;
    let literal = q + prefix + q;
    let value = open + column + close;
    let fragment = column + (eq + q + o + open) + column + (close + o + q);
    assert(before + o + literal + o + value + o + q =~= before + o + q + separator + fragment);
}

/// Regrouping: a text with two more parts.
proof fn lemma_two_more(front: Seq<char>, list: Seq<char>, a: Seq<char>, b: Seq<char>)
    ensures
        front + list + a + b == front + (list + a + b),
{
    assert(front + list + a + b =~= front + (list + a + b));
}

/// The source of the head of an update's pieces, left open for the next
/// literal, is the update written with the fragments of its first columns.
proof fn lemma_update_expression_head(schema: TableSchema, n: nat)
    requires
        schema.well_formed(),
        0 < n <= schema.columns.len(),
    ensures
        expression(schema.columns, update_set_head(schema, n)) + " || "@ + "'"@ == "'"@
            + ("UPDATE "@ + schema.name + " SET "@) + join(
            update_set_fragments(schema.columns).take(n as int),
            ", "@,
        ),
    decreases n,
{
    let columns = schema.columns;
    let fragments = update_set_fragments(columns);
    let column = columns[n - 1];
    let earlier = update_set_head(schema, (n - 1) as nat);
    let prefix = update_set_prefix(schema, n - 1);
    let literal = Piece::Literal(prefix);
    let old = Piece::OldColumn(n - 1);
    let q = "'"@;
    let o = " || "@;
    let eq = "="@;
    let open = "quote(OLD."@;
    let close = ")"@;
    let fragment = column + (eq + q + o + open) + column + (close + o + q);
    lemma_literal_seams();
    assert(fragments[n - 1] == fragment);
    lemma_update_prefix_plain(schema, n - 1);
    lemma_plain_literal(prefix);
    assert(piece_source(columns, literal) == q + prefix + q);
    assert(piece_source(columns, old) == open + column + close);
    lemma_expression_push(columns, earlier, literal);
    lemma_expression_push(columns, earlier.push(literal), old);
    lemma_join_push(fragments.take(n - 1), ", "@, fragment);
    assert(fragments.take(n as int) =~= fragments.take(n - 1).push(fragment));
    if n == 1 {
        assert(earlier =~= Seq::<Piece>::empty());
        let head = "UPDATE "@ + schema.name + " SET "@;
        assert(prefix == head + column + eq);
        lemma_first_assignment_source(q, o, head, column, eq, open, close);
    } else {
        lemma_update_expression_head(schema, (n - 1) as nat);
        let before = expression(columns, earlier);
        assert(earlier.len() > 0) by {
            assert(earlier == update_set_head(schema, (n - 2) as nat).push(
                Piece::Literal(update_set_prefix(schema, n - 2)),
            ).push(Piece::OldColumn(n - 2)));
        }
        assert(prefix == ", "@ + column + eq);
        lemma_next_assignment_source(before, q, o, ", "@, column, eq, open, close);
        lemma_two_more(
            q + ("UPDATE "@ + schema.name + " SET "@),
            join(fragments.take(n - 1), ", "@),
            ", "@,
            fragment,
        );
    }
}

/// Regrouping: the source of the last literal and the quoted key, added to
/// a source that was left open.
proof fn lemma_closing_source(
    before: Seq<char>,
    q: Seq<char>,
    o: Seq<char>,
    last: Seq<char>,
    key: Seq<char>,
)
    ensures
        before + o + (q + last + q) + o + key == before + o + q + (last + q + o + key),
{
    assert(before + o + (q + last + q) + o + key =~= before + o + q + (last + q + o + key));
}

/// Regrouping: the parts of a written update.
proof fn lemma_written_update(
    q: Seq<char>,
    word: Seq<char>,
    name: Seq<char>,
    set: Seq<char>,
    list: Seq<char>,
    tail: Seq<char>,
)
    ensures
        q + (word + name + set) + list + tail == q + word + name + set + list + tail,
{
    assert(q + (word + name + set) + list + tail =~= q + word + name + set + list + tail);
}

/// The source of the expression that the update trigger logs is the update
/// written as a string literal around the fragments of its columns: the
/// text of the literal, the assignments as `get_update_set_statements`
/// gives them, and the key quoted at the end.
pub proof fn lemma_update_expression(schema: TableSchema)
    requires
        schema.well_formed(),
    ensures
        expression(schema.columns, update_set_pieces(schema)) == "'UPDATE "@ + schema.name
            + " SET "@ + join(update_set_fragments(schema.columns), ", "@)
            + " WHERE id=' || quote(OLD.id)"@,
{
    let columns = schema.columns;
    let n = columns.len();
    let head = update_set_head(schema, n);
    let fragments = update_set_fragments(columns);
    let tail = Piece::Literal(" WHERE id="@);
    lemma_literal_seams();
    lemma_update_expression_head(schema, n);
    assert(fragments.take(n as int) =~= fragments);
    assert(quote_free(" WHERE id="@)) by {
        reveal_strlit(" WHERE id=");
    }
    lemma_plain_literal(" WHERE id="@);
    lemma_expression_push(columns, head, tail);
    lemma_expression_push(columns, head.push(tail), Piece::OldKey);
    assert(head.len() > 0) by {
        assert(head == update_set_head(schema, (n - 1) as nat).push(
            Piece::Literal(update_set_prefix(schema, n - 1)),
        ).push(Piece::OldColumn(n - 1)));
    }
    let before = expression(columns, head);
    let written = "'"@ + ("UPDATE "@ + schema.name + " SET "@) + join(fragments, ", "@);
    assert(before + " || "@ + "'"@ == written);
    lemma_closing_source(before, "'"@, " || "@, " WHERE id="@, "quote(OLD.id)"@);
    lemma_written_update(
        "'"@,
        "UPDATE "@,
        schema.name,
        " SET "@,
        join(fragments, ", "@),
        " WHERE id=' || quote(OLD.id)"@,
    );
}

/// A list written with a separator in front of each part is the separator
/// and the parts joined, if there is a part at all.
proof fn lemma_each_after_is_join(sep: Seq<char>, parts: Seq<Seq<char>>)
    requires
        parts.len() > 0,
    ensures
        each_after(sep, parts) == sep + join(parts, sep),
{
    assert(sep + parts[0] + each_after(sep, parts.skip(1)) =~= sep + (parts[0] + each_after(
        sep,
        parts.skip(1),
    )));
}

/// Names without single quotes make a list without single quotes.
proof fn lemma_names_quote_free(names: Seq<Seq<char>>)
    requires
        forall|i: int| 0 <= i < names.len() ==> quote_free(#[trigger] names[i]),
    ensures
        quote_free(each_after(", "@, names)),
    decreases names.len(),
{
    if names.len() > 0 {
        assert(quote_free(", "@)) by {
            reveal_strlit(", ");
        }
        assert(quote_free(names[0]));
        assert forall|i: int| 0 <= i < names.skip(1).len() implies quote_free(
            #[trigger] names.skip(1)[i],
        ) by {
            assert(names.skip(1)[i] == names[i + 1]);
        }
        lemma_names_quote_free(names.skip(1));
        lemma_quote_free_concat(", "@, names[0]);
        lemma_quote_free_concat(", "@ + names[0], each_after(", "@, names.skip(1)));
    }
}

/// The literal text at the start of an insert.
pub open spec fn insert_replay_start(schema: TableSchema) -> Seq<char> {
    "INSERT INTO "@ + schema.name + " (id"@ + each_after(", "@, schema.columns) + ") VALUES ("@
}

/// The literal text at the start of an insert holds no single quote.
proof fn lemma_insert_start_plain(schema: TableSchema)
    requires
        schema.well_formed(),
    ensures
        quote_free(insert_replay_start(schema)),
{
    lemma_identifier_quote_free(schema.name);
    assert forall|i: int| 0 <= i < schema.columns.len() implies quote_free(
        #[trigger] schema.columns[i],
    ) by {
        lemma_identifier_quote_free(schema.columns[i]);
    }
    lemma_names_quote_free(schema.columns);
    assert(quote_free("INSERT INTO "@)) by {
        reveal_strlit("INSERT INTO ");
    }
    assert(quote_free(" (id"@)) by {
        reveal_strlit(" (id");
    }
    assert(quote_free(") VALUES ("@)) by {
        reveal_strlit(") VALUES (");
    }
    lemma_quote_free_concat("INSERT INTO "@, schema.name);
    lemma_quote_free_concat("INSERT INTO "@ + schema.name, " (id"@);
    lemma_quote_free_concat(
        "INSERT INTO "@ + schema.name + " (id"@,
        each_after(", "@, schema.columns),
    );
    lemma_quote_free_concat(
        "INSERT INTO "@ + schema.name + " (id"@ + each_after(", "@, schema.columns),
        ") VALUES ("@,
    );
}

/// Regrouping: the source of a further value, left open for the next
/// literal, adds a separator and the next fragment to what was written.
proof fn lemma_next_value_source(
    before: Seq<char>,
    q: Seq<char>,
    o: Seq<char>,
    separator: Seq<char>,
    column: Seq<char>,
    open: Seq<char>,
    close: Seq<char>,
)
    ensures
        ({
            let literal = q + separator + q;
            let value = open + column + close;
            let fragment = (q + o + open) + column + (close + o + q);
            before + o + literal + o + value + o + q == before + o + q + separator + fragment
        }),
{
    let literal = q + separator + q;
    let value = open + column + close;
    let fragment = (q + o + open) + column + (close + o + q);
    assert(before + o + literal + o + value + o + q =~= before + o + q + separator + fragment);
}

/// The source of the head of an insert's pieces, left open for the next
/// literal, is the start of the insert with the quoted key and the
/// fragments of its first columns.
proof fn lemma_insert_expression_head(schema: TableSchema, n: nat)
    requires
        schema.well_formed(),
        n <= schema.columns.len(),
    ensures
        expression(schema.columns, insert_replay_head(schema, n)) + " || "@ + "'"@ == "'"@
            + insert_replay_start(schema) + "'"@ + " || "@ + "quote(OLD.id)"@ + " || "@ + "'"@
            + each_after(", "@, delete_insert_fragments(schema.columns).take(n as int)),
    decreases n,
{
    let columns = schema.columns;
    let fragments = delete_insert_fragments(columns);
    let q = "'"@;
    let o = " || "@;
    let start = insert_replay_start(schema);
    let base = q + start + q + o + "quote(OLD.id)"@ + o + q;
    lemma_literal_seams();
    if n == 0 {
        let first = Piece::Literal(start);
        lemma_insert_start_plain(schema);
        lemma_plain_literal(start);
        lemma_expression_push(columns, Seq::<Piece>::empty(), first);
        lemma_expression_push(columns, Seq::<Piece>::empty().push(first), Piece::OldKey);
        assert(insert_replay_head(schema, 0) =~= Seq::<Piece>::empty().push(first).push(
            Piece::OldKey,
        ));
        assert(fragments.take(0) =~= Seq::<Seq<char>>::empty());
        assert(base + Seq::<char>::empty() =~= base);
    } else {
        let column = columns[n - 1];
        let earlier = insert_replay_head(schema, (n - 1) as nat);
        let open = "quote(OLD."@;
        let close = ")"@;
        let fragment = (q + o + open) + column + (close + o + q);
        let separator = Piece::Literal(", "@);
        let old = Piece::OldColumn(n - 1);
        assert(fragments[n - 1] == fragment);
        assert(quote_free(", "@)) by {
            reveal_strlit(", ");
        }
        lemma_plain_literal(", "@);
        assert(piece_source(columns, old) == open + column + close);
        lemma_insert_expression_head(schema, (n - 1) as nat);
        lemma_expression_push(columns, earlier, separator);
        lemma_expression_push(columns, earlier.push(separator), old);
        assert(earlier.len() > 0) by {
            if n == 1 {
                assert(earlier.len() == 2);
            } else {
                assert(earlier == insert_replay_head(schema, (n - 2) as nat).push(
                    Piece::Literal(", "@),
                ).push(Piece::OldColumn(n - 2)));
            }
        }
        let before = expression(columns, earlier);
        lemma_next_value_source(before, q, o, ", "@, column, open, close);
        lemma_each_after_push(", "@, fragments.take(n - 1), fragment);
        assert(fragments.take(n as int) =~= fragments.take(n - 1).push(fragment));
        lemma_two_more(base, each_after(", "@, fragments.take(n - 1)), ", "@, fragment);
    }
}

/// Regrouping: the parts of a written insert.
proof fn lemma_written_insert(
    q: Seq<char>,
    o: Seq<char>,
    word: Seq<char>,
    name: Seq<char>,
    id: Seq<char>,
    sep: Seq<char>,
    names: Seq<char>,
    values: Seq<char>,
    key: Seq<char>,
    list: Seq<char>,
    end: Seq<char>,
)
    ensures
        q + (word + name + id + (sep + names) + values) + q + o + key + o + q + (sep + list) + (end
            + q) == (q + word) + name + (id + sep) + names + (values + q + o + key + o + q) + sep
            + list + (end + q),
{
    assert(q + (word + name + id + (sep + names) + values) + q + o + key + o + q + (sep + list)
        + (end + q) =~= (q + word) + name + (id + sep) + names + (values + q + o + key + o + q)
        + sep + list + (end + q));
}

/// Regrouping: the source of the last literal, added to a source that was
/// left open.
proof fn lemma_last_literal_source(before: Seq<char>, q: Seq<char>, o: Seq<char>, last: Seq<char>)
    ensures
        before + o + (q + last + q) == before + o + q + (last + q),
{
    assert(before + o + (q + last + q) =~= before + o + q + (last + q));
}

/// The source of the expression that the delete trigger logs is the insert
/// written as a string literal around the fragments of its columns: the
/// names as `get_column_names` gives them, behind the key, and the values as
/// `get_delete_insert_statements` gives them, behind the quoted key.
pub proof fn lemma_insert_expression(schema: TableSchema)
    requires
        schema.well_formed(),
    ensures
        expression(schema.columns, insert_replay_pieces(schema)) == "'INSERT INTO "@
            + schema.name + " (id, "@ + join(schema.columns, ", "@)
            + ") VALUES (' || quote(OLD.id) || '"@ + ", "@ + join(
            delete_insert_fragments(schema.columns),
            ", "@,
        ) + ");'"@,
{
    let columns = schema.columns;
    let n = columns.len();
    let head = insert_replay_head(schema, n);
    let fragments = delete_insert_fragments(columns);
    let q = "'"@;
    let o = " || "@;
    lemma_literal_seams();
    lemma_insert_expression_head(schema, n);
    assert(fragments.take(n as int) =~= fragments);
    assert(quote_free(");"@)) by {
        reveal_strlit(");");
    }
    lemma_plain_literal(");"@);
    lemma_expression_push(columns, head, Piece::Literal(");"@));
    assert(head.len() > 0) by {
        assert(head == insert_replay_head(schema, (n - 1) as nat).push(
            Piece::Literal(", "@),
        ).push(Piece::OldColumn(n - 1)));
    }
    let before = expression(columns, head);
    lemma_last_literal_source(before, q, o, ");"@);
    lemma_each_after_is_join(", "@, columns);
    lemma_each_after_is_join(", "@, fragments);
    lemma_written_insert(
        q,
        o,
        "INSERT INTO "@,
        schema.name,
        " (id"@,
        ", "@,
        join(columns, ", "@),
        ") VALUES ("@,
        "quote(OLD.id)"@,
        join(fragments, ", "@),
        ");"@,
    );
}

/// The source of the expression that the insert trigger logs is the delete
/// written as a string literal, and the quoted key of the new row behind it.
pub proof fn lemma_delete_expression(schema: TableSchema)
    requires
        schema.well_formed(),
    ensures
        expression(schema.columns, delete_key_pieces(schema)) == "'DELETE FROM "@ + schema.name
            + " WHERE id=' || quote(NEW.id)"@,
{
    let text = "DELETE FROM "@ + schema.name + " WHERE id="@;
    let first = Piece::Literal(text);
    lemma_identifier_quote_free(schema.name);
    assert(quote_free("DELETE FROM "@)) by {
        reveal_strlit("DELETE FROM ");
    }
    assert(quote_free(" WHERE id="@)) by {
        reveal_strlit(" WHERE id=");
    }
    lemma_quote_free_concat("DELETE FROM "@, schema.name);
    lemma_quote_free_concat("DELETE FROM "@ + schema.name, " WHERE id="@);
    lemma_plain_literal(text);
    lemma_expression_push(schema.columns, Seq::<Piece>::empty(), first);
    lemma_expression_push(schema.columns, Seq::<Piece>::empty().push(first), Piece::NewKey);
    assert(delete_key_pieces(schema) =~= Seq::<Piece>::empty().push(first).push(Piece::NewKey));
    assert("'DELETE FROM "@ =~= "'"@ + "DELETE FROM "@) by {
        reveal_strlit("'DELETE FROM ");
        reveal_strlit("'");
        reveal_strlit("DELETE FROM ");
    }
    assert(" WHERE id=' || quote(NEW.id)"@ =~= " WHERE id="@ + "'"@ + " || "@
        + "quote(NEW.id)"@) by {
        reveal_strlit(" WHERE id=' || quote(NEW.id)");
        reveal_strlit(" WHERE id=");
        reveal_strlit("'");
        reveal_strlit(" || ");
        reveal_strlit("quote(NEW.id)");
    }
    lemma_written_delete(
        "'"@,
        "DELETE FROM "@,
        schema.name,
        " WHERE id="@,
        " || "@,
        "quote(NEW.id)"@,
    );
}

/// Regrouping: the parts of a written delete.
proof fn lemma_written_delete(
    q: Seq<char>,
    word: Seq<char>,
    name: Seq<char>,
    tail: Seq<char>,
    o: Seq<char>,
    key: Seq<char>,
)
    ensures
        q + (word + name + tail) + q + o + key == (q + word) + name + (tail + q + o + key),
{
    assert(q + (word + name + tail) + q + o + key =~= (q + word) + name + (tail + q + o + key));
}

} // verus!
