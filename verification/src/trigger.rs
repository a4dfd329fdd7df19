//! The triggers that write the undo log.
//!
//! Each tracked table gets three triggers, one after each kind of change.
//! A trigger inserts one row into the log, whose text is the value of the
//! template's expression for the changed row. The triggers are created only
//! if they do not exist yet, so that they can be installed at every start.

use vstd::prelude::*;
use vstd::string::*;
use crate::schema::{find_table, lookup, ConfigurationError, TableSchema, TrackedTable};
use crate::template::{
    delete_insert_fragments, delete_key_pieces, delete_key_template, expression,
    insert_replay_pieces, insert_replay_template, lemma_delete_expression,
    lemma_insert_expression, lemma_update_expression, update_set_fragments, update_set_pieces,
    update_set_template,
};
use crate::text::join;

verus! {

/// The statement that creates one trigger of table `name`: `suffix` ends the
/// trigger's name, `event` is the change it fires after, and `source` is the
/// expression whose value it logs.
pub open spec fn trigger_text(
    name: Seq<char>,
    suffix: Seq<char>,
    event: Seq<char>,
    source: Seq<char>,
) -> Seq<char> {
    "-- "@ + event + " Trigger\nCREATE TRIGGER IF NOT EXISTS "@ + name + "_"@ + suffix
        + " AFTER "@ + event + " ON "@ + name
        + "\nBEGIN\n    INSERT INTO undolog (sql) VALUES (\n        "@ + source
        + "\n    );\nEND;\n"@
}

/// The statements that create the three triggers of a table.
pub open spec fn triggers_text(schema: TableSchema) -> Seq<char> {
    trigger_text(
        schema.name,
        "insert"@,
        "INSERT"@,
        expression(schema.columns, delete_key_pieces(schema)),
    ) + "\n"@ + trigger_text(
        schema.name,
        "delete"@,
        "DELETE"@,
        expression(schema.columns, insert_replay_pieces(schema)),
    ) + "\n"@ + trigger_text(
        schema.name,
        "update"@,
        "UPDATE"@,
        expression(schema.columns, update_set_pieces(schema)),
    )
}

fn push_trigger(out: &mut String, name: &str, suffix: &str, event: &str, source: &str)
    ensures
        final(out)@ == old(out)@ + trigger_text(name@, suffix@, event@, source@),
{
    let mut text = String::new();
    text.append("-- ");
    text.append(event);
    text.append(" Trigger\nCREATE TRIGGER IF NOT EXISTS ");
    text.append(name);
    text.append("_");
    text.append(suffix);
    text.append(" AFTER ");
    text.append(event);
    text.append(" ON ");
    text.append(name);
    text.append("\nBEGIN\n    INSERT INTO undolog (sql) VALUES (\n        ");
    text.append(source);
    text.append("\n    );\nEND;\n");
    assert(text@ == trigger_text(name@, suffix@, event@, source@)) by {
        assert(Seq::<char>::empty() + "-- "@ == "-- "@);
    }
    out.append(text.as_str());
}

/// The statements that create the three triggers of `table`.
pub fn trigger_sql(table: &TrackedTable) -> (sql: String)
    ensures
        sql@ == triggers_text(table@),
        sql@ == triggers_written(table@),
{
    let name = table.name();
    proof {
        lemma_triggers_written(table@);
    }
    let after_insert = delete_key_template(table).expression();
    let after_delete = insert_replay_template(table).expression();
    let after_update = update_set_template(table).expression();
    let mut sql = String::new();
    push_trigger(&mut sql, name, "insert", "INSERT", after_insert.as_str());
    sql.append("\n");
    push_trigger(&mut sql, name, "delete", "DELETE", after_delete.as_str());
    sql.append("\n");
    push_trigger(&mut sql, name, "update", "UPDATE", after_update.as_str());
    assert(sql@ == triggers_text(table@)) by {
        let first = trigger_text(
            table@.name,
            "insert"@,
            "INSERT"@,
            expression(table@.columns, delete_key_pieces(table@)),
        );
        assert(Seq::<char>::empty() + first == first);
    }
    sql
}

/// The statements that create the three triggers of the tracked table of
/// the given name.
///
/// Fails with `UnknownTable` exactly when no table of that name is enrolled:
/// no trigger is ever made for a table that the registry does not describe.
pub fn triggers_for(table: &str) -> (sql: Result<String, ConfigurationError>)
    ensures
        match lookup(table@) {
            Some(schema) => sql matches Ok(text) && text@ == triggers_text(schema) && text@
                == triggers_written(schema),
            None => sql matches Err(e) && e == ConfigurationError::UnknownTable,
        },
{
    match find_table(table) {
        Ok(found) => Ok(trigger_sql(&found)),
        Err(e) => Err(e),
    }
}

/// The statements that create the three triggers of a table, written out:
/// each logged expression is a string literal that is closed in front of
/// every quoted value and opened again behind it. The names of the columns
/// and their quoted values stand in the same order, that of the schema.
pub open spec fn triggers_written(schema: TableSchema) -> Seq<char> {
    trigger_text(
        schema.name,
        "insert"@,
        "INSERT"@,
        "'DELETE FROM "@ + schema.name + " WHERE id=' || quote(NEW.id)"@,
    ) + "\n"@ + trigger_text(
        schema.name,
        "delete"@,
        "DELETE"@,
        "'INSERT INTO "@ + schema.name + " (id, "@ + join(schema.columns, ", "@)
            + ") VALUES (' || quote(OLD.id) || '"@ + ", "@ + join(
            delete_insert_fragments(schema.columns),
            ", "@,
        ) + ");'"@,
    ) + "\n"@ + trigger_text(
        schema.name,
        "update"@,
        "UPDATE"@,
        "'UPDATE "@ + schema.name + " SET "@ + join(update_set_fragments(schema.columns), ", "@)
            + " WHERE id=' || quote(OLD.id)"@,
    )
}

/// The triggers of a table are what their templates say, written out.
pub proof fn lemma_triggers_written(schema: TableSchema)
    requires
        schema.well_formed(),
    ensures
        triggers_text(schema) == triggers_written(schema),
{
    lemma_delete_expression(schema);
    lemma_insert_expression(schema);
    lemma_update_expression(schema);
}

} // verus!
