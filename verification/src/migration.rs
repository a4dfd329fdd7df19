//! The steps that set up the store: the log, the tables, their triggers, and
//! the rows that a fresh store starts with.

use vstd::prelude::*;
use vstd::string::*;
use crate::schema::{
    buyers, lookup, registry, sellers, settings, tracked_tables, tree_species, wood_piece_offers,
    wood_pieces, ConfigurationError, TrackedTable,
};
use crate::seed::{SQL_STATEMENT_SETTINGS, SQL_STATEMENT_TREE_SPECIES};
use crate::text::same_text;
use crate::trigger::{trigger_sql, triggers_text};

verus! {

/// The file that holds the store, inside the application's data directory.
/// The set-up, the snapshots, the backups and the reset all work on this one
/// file.
pub const DATABASE_FILE: &'static str = "main_database_v10.db";

/// The address under which the store is opened for the set-up.
pub open spec fn database_address() -> Seq<char> {
    "sqlite:"@ + DATABASE_FILE@
}

/// The address under which the store is opened for the set-up.
pub fn database_url() -> (url: String)
    ensures
        url@ == database_address(),
{
    let mut url = String::new();
    url.append("sqlite:");
    url.append(DATABASE_FILE);
    assert(Seq::<char>::empty() + "sqlite:"@ == "sqlite:"@);
    url
}

/// The query that lists the columns of a live table, in their order; it
/// yields nothing for a table that does not exist.
pub open spec fn live_columns_query_text(name: Seq<char>) -> Seq<char> {
    "SELECT name FROM pragma_table_info('"@ + name + "') ORDER BY cid"@
}

/// The query that lists the columns of the live table of a tracked table.
pub fn live_columns_query(table: &TrackedTable) -> (query: String)
    ensures
        query@ == live_columns_query_text(table@.name),
{
    let mut query = String::new();
    query.append("SELECT name FROM pragma_table_info('");
    query.append(table.name());
    query.append("') ORDER BY cid");
    assert(Seq::<char>::empty() + "SELECT name FROM pragma_table_info('"@
        == "SELECT name FROM pragma_table_info('"@);
    query
}

/// Creates the undo log: a growing sequence number and a statement text.
pub const UNDOLOG_TABLE_SQL: &'static str = "CREATE TABLE IF NOT EXISTS undolog (
    seq INTEGER PRIMARY KEY AUTOINCREMENT,
    sql TEXT NOT NULL
);";

/// Creates the table of settings.
pub const SETTINGS_TABLE_SQL: &'static str = "CREATE TABLE IF NOT EXISTS settings (
    id INTEGER PRIMARY KEY AUTOINCREMENT,
    licitator_fixed_cost REAL,
    licitator_percentage REAL,
    bundle_cost REAL
);";

/// Creates the table of buyers.
pub const BUYERS_TABLE_SQL: &'static str = "CREATE TABLE IF NOT EXISTS buyers (
    id INTEGER PRIMARY KEY AUTOINCREMENT,
    buyer_name VARCHAR,
    address_line1 VARCHAR,
    address_line2 VARCHAR,
    additional_costs REAL,
    is_vat_liable INTEGER DEFAULT 1,
    used_bundle INTEGER DEFAULT 1,
    used_loading INTEGER DEFAULT 1,
    loading_costs REAL DEFAULT 5.00,
    ident VARCHAR DEFAULT \"\"
);";

/// Creates the table of sellers.
pub const SELLERS_TABLE_SQL: &'static str = "CREATE TABLE IF NOT EXISTS sellers (
    id INTEGER PRIMARY KEY AUTOINCREMENT,
    seller_name VARCHAR,
    address_line1 VARCHAR,
    address_line2 VARCHAR,
    iban VARCHAR,
    ident VARCHAR,
    is_flat_rate INTEGER,
    is_vat_liable INTEGER,
    used_transport INTEGER,
    used_logging INTEGER,
    used_logging_non_woods INTEGER,
    additional_costs REAL,
    transport_costs REAL,
    logging_costs REAL
);";

/// Creates the table of tree species.
pub const TREE_SPECIES_TABLE_SQL: &'static str = "CREATE TABLE IF NOT EXISTS tree_species (
    id INTEGER PRIMARY KEY AUTOINCREMENT,
    tree_species_name VARCHAR,
    latin_name VARCHAR,
    tree_species_name_slo VARCHAR
);";

/// Creates the table of wood pieces. The volume is stored, but computed by
/// the store from the width and the length; it cannot be written.
pub const WOOD_PIECES_TABLE_SQL: &'static str = "CREATE TABLE IF NOT EXISTS wood_pieces (
    id INTEGER PRIMARY KEY AUTOINCREMENT,
    length REAL,
    sequence_no INTEGER,
    width REAL,
    volume REAL AS (round(3.14159265359 * width * 0.5 * 0.01 * width * 0.5 * 0.01 * length, 2)) STORED,
    plate_no VARCHAR,
    seller_id INTEGER,
    tree_species_id INTEGER,
    min_price REAL,
    bypass_min_price INTEGER,
    FOREIGN KEY(seller_id) REFERENCES sellers(id) ON DELETE RESTRICT,
    FOREIGN KEY(tree_species_id) REFERENCES tree_species(id)
);";

/// Creates the table of offers on wood pieces.
pub const WOOD_PIECE_OFFERS_TABLE_SQL: &'static str = "CREATE TABLE IF NOT EXISTS wood_piece_offers (
    id INTEGER PRIMARY KEY AUTOINCREMENT,
    offered_price REAL,
    wood_piece_id INTEGER,
    buyer_id INTEGER,
    FOREIGN KEY(buyer_id) REFERENCES buyers(id) ON DELETE RESTRICT,
    FOREIGN KEY(wood_piece_id) REFERENCES wood_pieces(id) ON DELETE RESTRICT
);";

/// The statement that creates the table of the given name; empty for a name
/// that no tracked table has.
pub open spec fn creation_sql(name: Seq<char>) -> Seq<char> {
    if name == settings().name {
        SETTINGS_TABLE_SQL@
    } else if name == buyers().name {
        BUYERS_TABLE_SQL@
    } else if name == sellers().name {
        SELLERS_TABLE_SQL@
    } else if name == tree_species().name {
        TREE_SPECIES_TABLE_SQL@
    } else if name == wood_pieces().name {
        WOOD_PIECES_TABLE_SQL@
    } else if name == wood_piece_offers().name {
        WOOD_PIECE_OFFERS_TABLE_SQL@
    } else {
        ""@
    }
}

fn creation_sql_of(name: &str) -> (sql: &'static str)
    ensures
        sql@ == creation_sql(name@),
{
    if same_text(name, "settings") {
        SETTINGS_TABLE_SQL
    } else if same_text(name, "buyers") {
        BUYERS_TABLE_SQL
    } else if same_text(name, "sellers") {
        SELLERS_TABLE_SQL
    } else if same_text(name, "tree_species") {
        TREE_SPECIES_TABLE_SQL
    } else if same_text(name, "wood_pieces") {
        WOOD_PIECES_TABLE_SQL
    } else if same_text(name, "wood_piece_offers") {
        WOOD_PIECE_OFFERS_TABLE_SQL
    } else {
        ""
    }
}

/// The statement that creates the tracked table of the given name.
///
/// Fails with `UnknownTable` exactly when no table of that name is enrolled.
pub fn table_creation_sql(table: &str) -> (sql: Result<&'static str, ConfigurationError>)
    ensures
        match lookup(table@) {
            Some(_) => sql matches Ok(text) && text@ == creation_sql(table@),
            None => sql matches Err(e) && e == ConfigurationError::UnknownTable,
        },
{
    let text = creation_sql_of(table);
    if same_text(table, "settings") || same_text(table, "buyers") || same_text(table, "sellers")
        || same_text(table, "tree_species") || same_text(table, "wood_pieces") || same_text(
        table,
        "wood_piece_offers",
    ) {
        Ok(text)
    } else {
        Err(ConfigurationError::UnknownTable)
    }
}

/// Whether a step builds the store up or takes it down.
#[derive(Debug, Clone, Copy, PartialEq, Eq, Structural)]
pub enum MigrationKind {
    Up,
    Down,
}

/// One step of the set-up, as a mathematical value.
pub struct MigrationModel {
    pub version: int,
    pub description: Seq<char>,
    pub sql: Seq<char>,
    pub kind: MigrationKind,
}

/// One step of the set-up: the store runs each version once, in the order of
/// the versions.
#[derive(Debug, PartialEq, Eq)]
pub struct Migration {
    pub version: i64,
    pub description: String,
    pub sql: String,
    pub kind: MigrationKind,
}

impl View for Migration {
    type V = MigrationModel;

    open spec fn view(&self) -> MigrationModel {
        MigrationModel {
            version: self.version as int,
            description: self.description@,
            sql: self.sql@,
            kind: self.kind,
        }
    }
}

/// The step that creates the undo log.
pub open spec fn undolog_step() -> MigrationModel {
    MigrationModel {
        version: 0,
        description: "create_undolog_table"@,
        sql: UNDOLOG_TABLE_SQL@,
        kind: MigrationKind::Up,
    }
}

/// The step that creates the tracked table at position `i` of the registry.
pub open spec fn create_table_step(i: int) -> MigrationModel {
    MigrationModel {
        version: i + 1,
        description: "create_table_"@ + registry()[i].name,
        sql: creation_sql(registry()[i].name),
        kind: MigrationKind::Up,
    }
}

/// The step that installs the triggers of the tracked table at position `i`
/// of the registry.
pub open spec fn add_triggers_step(i: int) -> MigrationModel {
    MigrationModel {
        version: i + 10,
        description: "add_triggers_for_"@ + registry()[i].name,
        sql: triggers_text(registry()[i]),
        kind: MigrationKind::Up,
    }
}

/// The steps up to and including those of the first `n` tracked tables: the
/// log first, then for each table its creation and its triggers.
pub open spec fn table_steps(n: nat) -> Seq<MigrationModel>
    decreases n,
{
    if n == 0 {
        seq![undolog_step()]
    } else {
        table_steps((n - 1) as nat).push(create_table_step(n - 1)).push(add_triggers_step(n - 1))
    }
}

/// The whole set-up: the log, the tables with their triggers, then the tree
/// species and the settings that a fresh store starts with.
pub open spec fn migration_plan() -> Seq<MigrationModel> {
    table_steps(registry().len()).push(
        MigrationModel {
            version: 200,
            description: "insert_tree_species_data"@,
            sql: SQL_STATEMENT_TREE_SPECIES@,
            kind: MigrationKind::Up,
        },
    ).push(
        MigrationModel {
            version: 201,
            description: "insert_settings_data"@,
            sql: SQL_STATEMENT_SETTINGS@,
            kind: MigrationKind::Up,
        },
    )
}

/// The views of the steps of a vector, in order.
pub open spec fn steps_view(steps: Seq<Migration>) -> Seq<MigrationModel> {
    Seq::new(steps.len(), |i: int| steps[i]@)
}

/// The steps that set up the store, in order.
pub fn migrations() -> (plan: Vec<Migration>)
    ensures
        steps_view(plan@) == migration_plan(),
{
    let tables = tracked_tables();
    let mut plan: Vec<Migration> = Vec::new();
    plan.push(
        Migration {
            version: 0,
            description: "create_undolog_table".to_owned(),
            sql: UNDOLOG_TABLE_SQL.to_owned(),
            kind: MigrationKind::Up,
        },
    );
    assert(steps_view(plan@) =~= table_steps(0));
    let mut i: usize = 0;
    while i < tables.len()
        invariant
            i <= tables.len(),
            tables.len() == registry().len(),
            tables.len() == 6,
            forall|k: int| 0 <= k < tables.len() ==> (#[trigger] tables[k])@ == registry()[k],
            steps_view(plan@) == table_steps(i as nat),
        decreases tables.len() - i,
    {
        let table = &tables[i];
        let ghost earlier = steps_view(plan@);
        let mut created = String::new();
        created.append("create_table_");
        created.append(table.name());
        let mut installed = String::new();
        installed.append("add_triggers_for_");
        installed.append(table.name());
        let position: i64 = i as i64;
        plan.push(
            Migration {
                version: position + 1,
                description: created,
                sql: creation_sql_of(table.name()).to_owned(),
                kind: MigrationKind::Up,
            },
        );
        plan.push(
            Migration {
                version: position + 10,
                description: installed,
                sql: trigger_sql(table),
                kind: MigrationKind::Up,
            },
        );
        proof {
            assert(Seq::<char>::empty() + "create_table_"@ == "create_table_"@);
            assert(Seq::<char>::empty() + "add_triggers_for_"@ == "add_triggers_for_"@);
            assert(steps_view(plan@) =~= earlier.push(create_table_step(i as int)).push(
                add_triggers_step(i as int),
            ));
        }
        i += 1;
    }
    let ghost earlier = steps_view(plan@);
    plan.push(
        Migration {
            version: 200,
            description: "insert_tree_species_data".to_owned(),
            sql: SQL_STATEMENT_TREE_SPECIES.to_owned(),
            kind: MigrationKind::Up,
        },
    );
    plan.push(
        Migration {
            version: 201,
            description: "insert_settings_data".to_owned(),
            sql: SQL_STATEMENT_SETTINGS.to_owned(),
            kind: MigrationKind::Up,
        },
    );
    assert(steps_view(plan@) =~= migration_plan());
    plan
}

} // verus!
