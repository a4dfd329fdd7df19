//! The registry of tracked tables: which tables take part in undo logging,
//! and which columns of each are recorded.

use vstd::prelude::*;
use vstd::string::*;
use crate::text::{copy_texts, join, join_texts, same_text, texts, to_chars};

verus! {

/// A fault in the description of the tracked tables.
#[derive(Debug, Clone, Copy, PartialEq, Eq, Structural)]
pub enum ConfigurationError {
    /// The table is not enrolled in undo logging.
    UnknownTable,
    /// A name is no plain identifier, the column list is empty, or the key is
    /// listed among the columns.
    InvalidSchema,
    /// The live table does not hold the key and the recorded columns, in
    /// their order.
    StaleSchema,
}

impl ConfigurationError {
    /// What went wrong, in words.
    pub open spec fn message_text(self) -> Seq<char> {
        match self {
            ConfigurationError::UnknownTable => "the table is not enrolled in undo logging"@,
            ConfigurationError::InvalidSchema => "the schema of the table is not well formed"@,
            ConfigurationError::StaleSchema => "the live table does not have the recorded columns"@,
        }
    }

    /// What went wrong, in words.
    pub fn message(&self) -> (message: &'static str)
        ensures
            message@ == self.message_text(),
    {
        match self {
            ConfigurationError::UnknownTable => "the table is not enrolled in undo logging",
            ConfigurationError::InvalidSchema => "the schema of the table is not well formed",
            ConfigurationError::StaleSchema => "the live table does not have the recorded columns",
        }
    }
}

/// What a tracked table is, as a mathematical value: its name and its
/// recorded columns, in order, the key left out.
pub struct TableSchema {
    pub name: Seq<char>,
    pub columns: Seq<Seq<char>>,
}

/// Letters, digits and the underscore.
pub open spec fn is_identifier_char(c: char) -> bool {
    ||| 'a' <= c <= 'z'
    ||| 'A' <= c <= 'Z'
    ||| '0' <= c <= '9'
    ||| c == '_'
}

/// A non-empty run of identifier characters that does not start with a digit.
pub open spec fn is_identifier(s: Seq<char>) -> bool {
    &&& s.len() > 0
    &&& !('0' <= s[0] <= '9')
    &&& forall|i: int| 0 <= i < s.len() ==> is_identifier_char(#[trigger] s[i])
}

/// The name of the key column of every tracked table.
pub open spec fn key_name() -> Seq<char> {
    "id"@
}

impl TableSchema {
    /// The table and the columns are identifiers, there is at least one
    /// column, and none is the key.
    pub open spec fn well_formed(self) -> bool {
        &&& is_identifier(self.name)
        &&& self.columns.len() > 0
        &&& forall|i: int| 0 <= i < self.columns.len() ==> is_identifier(#[trigger] self.columns[i])
        &&& forall|i: int| 0 <= i < self.columns.len() ==> #[trigger] self.columns[i] != key_name()
    }
}

/// Whether a name and a list of columns make a well-formed schema.
pub fn check_schema(name: &str, columns: &Vec<String>) -> (ok: bool)
    ensures
        ok == (TableSchema { name: name@, columns: texts(columns@) }).well_formed(),
{
    if !check_identifier(name) || columns.len() == 0 {
        return false;
    }
    let mut i: usize = 0;
    while i < columns.len()
        invariant
            i <= columns.len(),
            forall|k: int| 0 <= k < i ==> is_identifier(#[trigger] texts(columns@)[k]),
            forall|k: int| 0 <= k < i ==> #[trigger] texts(columns@)[k] != key_name(),
        decreases columns.len() - i,
    {
        let column = columns[i].as_str();
        assert(texts(columns@)[i as int] == column@);
        if !check_identifier(column) || same_text(column, "id") {
            return false;
        }
        i += 1;
    }
    true
}

/// A table enrolled in undo logging.
#[derive(Debug, PartialEq, Eq)]
pub struct TrackedTable {
    name: String,
    columns: Vec<String>,
}

impl View for TrackedTable {
    type V = TableSchema;

    closed spec fn view(&self) -> TableSchema {
        TableSchema { name: self.name@, columns: texts(self.columns@) }
    }
}

impl TrackedTable {
    /// What holds of every tracked table in hand: its schema is well
    /// formed.
    #[verifier::type_invariant]
    pub open spec fn valid(self) -> bool {
        self@.well_formed()
    }

    /// A tracked table of the given name and columns, if they make a
    /// well-formed schema.
    pub fn new(name: &str, columns: Vec<String>) -> (made: Result<TrackedTable, ConfigurationError>)
        ensures
            match made {
                Ok(table) => table@ == (TableSchema { name: name@, columns: texts(columns@) })
                    && table@.well_formed(),
                Err(e) => e == ConfigurationError::InvalidSchema
                    && !(TableSchema { name: name@, columns: texts(columns@) }).well_formed(),
            },
    {
        if !check_schema(name, &columns) {
            return Err(ConfigurationError::InvalidSchema);
        }
        Ok(TrackedTable { name: name.to_owned(), columns })
    }

    /// The table's name.
    pub fn name(&self) -> (name: &str)
        ensures
            name@ == self@.name,
            self@.well_formed(),
    {
        proof {
            use_type_invariant(self);
        }
        self.name.as_str()
    }

    /// The recorded columns, in order.
    pub fn columns(&self) -> (columns: &Vec<String>)
        ensures
            texts(columns@) == self@.columns,
            self@.well_formed(),
    {
        proof {
            use_type_invariant(self);
        }
        &self.columns
    }

    /// Whether the columns of the live table, in their order, are the key
    /// followed by the recorded columns. Triggers made for a schema that the
    /// live table has left behind would name columns that are not there.
    pub fn matches_live(&self, live_columns: &Vec<String>) -> (same: bool)
        ensures
            same == (texts(live_columns@) == seq![key_name()] + self@.columns),
    {
        if live_columns.len() == 0 || live_columns.len() - 1 != self.columns.len() {
            assert(texts(live_columns@).len() != (seq![key_name()] + self@.columns).len());
            return false;
        }
        if !same_text(live_columns[0].as_str(), "id") {
            assert(texts(live_columns@)[0] != (seq![key_name()] + self@.columns)[0]);
            return false;
        }
        let mut i: usize = 0;
        while i < self.columns.len()
            invariant
                i <= self.columns.len(),
                live_columns.len() == self.columns.len() + 1,
                forall|k: int| 0 <= k < i ==> live_columns[k + 1]@ == self.columns[k]@,
            decreases self.columns.len() - i,
        {
            if !same_text(live_columns[i + 1].as_str(), self.columns[i].as_str()) {
                assert(texts(live_columns@)[i + 1] != (seq![key_name()] + self@.columns)[i + 1]);
                return false;
            }
            i += 1;
        }
        assert(texts(live_columns@) =~= seq![key_name()] + self@.columns);
        true
    }

    /// Checks the table against the columns of the live table, before its
    /// triggers are installed. A table that does not exist yet has no
    /// columns and passes: it will be created with the recorded columns.
    ///
    /// Fails with `StaleSchema` exactly when the live table has columns and
    /// they are not the key followed by the recorded columns.
    pub fn check_live(&self, live_columns: &Vec<String>) -> (checked: Result<
        (),
        ConfigurationError,
    >)
        ensures
            match checked {
                Ok(_) => live_columns.len() == 0 || texts(live_columns@) == seq![key_name()]
                    + self@.columns,
                Err(e) => e == ConfigurationError::StaleSchema && live_columns.len() != 0 && texts(
                    live_columns@,
                ) != seq![key_name()] + self@.columns,
            },
    {
        if live_columns.len() == 0 || self.matches_live(live_columns) {
            Ok(())
        } else {
            Err(ConfigurationError::StaleSchema)
        }
    }

    /// The name of the key column.
    pub fn primary_key(&self) -> (key: &'static str)
        ensures
            key@ == key_name(),
    {
        "id"
    }
}

impl Clone for TrackedTable {
    fn clone(&self) -> (copy: TrackedTable)
        ensures
            copy@ == self@,
    {
        proof {
            use_type_invariant(self);
        }
        TrackedTable { name: self.name.clone(), columns: copy_texts(&self.columns) }
    }
}

fn is_identifier_start(c: char) -> (ok: bool)
    ensures
        ok == (is_identifier_char(c) && !('0' <= c <= '9')),
{
    ('a' <= c && c <= 'z') || ('A' <= c && c <= 'Z') || c == '_'
}

fn is_identifier_part(c: char) -> (ok: bool)
    ensures
        ok == is_identifier_char(c),
{
    ('a' <= c && c <= 'z') || ('A' <= c && c <= 'Z') || ('0' <= c && c <= '9') || c == '_'
}

/// Whether `text` is a plain identifier.
pub fn check_identifier(text: &str) -> (ok: bool)
    ensures
        ok == is_identifier(text@),
{
    let chars = to_chars(text);
    if chars.len() == 0 || !is_identifier_start(chars[0]) {
        return false;
    }
    let mut i: usize = 1;
    while i < chars.len()
        invariant
            1 <= i <= chars.len(),
            chars@ == text@,
            forall|k: int| 0 <= k < i ==> is_identifier_char(#[trigger] chars@[k]),
        decreases chars.len() - i,
    {
        if !is_identifier_part(chars[i]) {
            return false;
        }
        i += 1;
    }
    true
}


/// The table of buyers.
pub open spec fn buyers() -> TableSchema {
    TableSchema {
        name: "buyers"@,
        columns: seq![
            "buyer_name"@,
            "address_line1"@,
            "address_line2"@,
            "additional_costs"@,
            "is_vat_liable"@,
            "used_bundle"@,
            "used_loading"@,
            "loading_costs"@,
            "ident"@,
        ],
    }
}

/// The table of sellers.
pub open spec fn sellers() -> TableSchema {
    TableSchema {
        name: "sellers"@,
        columns: seq![
            "seller_name"@,
            "address_line1"@,
            "address_line2"@,
            "iban"@,
            "ident"@,
            "is_flat_rate"@,
            "is_vat_liable"@,
            "used_transport"@,
            "used_logging"@,
            "used_logging_non_woods"@,
            "additional_costs"@,
            "transport_costs"@,
            "logging_costs"@,
        ],
    }
}

/// The table of tree species.
pub open spec fn tree_species() -> TableSchema {
    TableSchema {
        name: "tree_species"@,
        columns: seq![
            "tree_species_name"@,
            "latin_name"@,
            "tree_species_name_slo"@,
        ],
    }
}

/// The table of wood pieces. Its volume is not recorded: the store computes
/// it from the width and the length, and does not let it be written.
pub open spec fn wood_pieces() -> TableSchema {
    TableSchema {
        name: "wood_pieces"@,
        columns: seq![
            "length"@,
            "sequence_no"@,
            "width"@,
            "plate_no"@,
            "seller_id"@,
            "tree_species_id"@,
            "min_price"@,
            "bypass_min_price"@,
        ],
    }
}

/// The table of offers on wood pieces.
pub open spec fn wood_piece_offers() -> TableSchema {
    TableSchema {
        name: "wood_piece_offers"@,
        columns: seq![
            "offered_price"@,
            "wood_piece_id"@,
            "buyer_id"@,
        ],
    }
}

/// The table of settings.
pub open spec fn settings() -> TableSchema {
    TableSchema {
        name: "settings"@,
        columns: seq![
            "licitator_fixed_cost"@,
            "licitator_percentage"@,
            "bundle_cost"@,
        ],
    }
}

/// The tracked tables, in the order in which they are created.
pub open spec fn registry() -> Seq<TableSchema> {
    seq![buyers(), sellers(), tree_species(), wood_pieces(), wood_piece_offers(), settings()]
}

/// The tracked table of the given name, if there is one.
pub open spec fn lookup(name: Seq<char>) -> Option<TableSchema> {
    if name == buyers().name {
        Some(buyers())
    } else if name == sellers().name {
        Some(sellers())
    } else if name == tree_species().name {
        Some(tree_species())
    } else if name == wood_pieces().name {
        Some(wood_pieces())
    } else if name == wood_piece_offers().name {
        Some(wood_piece_offers())
    } else if name == settings().name {
        Some(settings())
    } else {
        None
    }
}

proof fn lemma_buyers_well_formed()
    ensures
        buyers().well_formed(),
{
    reveal_strlit("id");
    reveal_strlit("buyers");
    reveal_strlit("buyer_name");
    reveal_strlit("address_line1");
    reveal_strlit("address_line2");
    reveal_strlit("additional_costs");
    reveal_strlit("is_vat_liable");
    reveal_strlit("used_bundle");
    reveal_strlit("used_loading");
    reveal_strlit("loading_costs");
    reveal_strlit("ident");
    assert(is_identifier("buyers"@));
    assert(is_identifier("buyer_name"@));
    assert(is_identifier("address_line1"@));
    assert(is_identifier("address_line2"@));
    assert(is_identifier("additional_costs"@));
    assert(is_identifier("is_vat_liable"@));
    assert(is_identifier("used_bundle"@));
    assert(is_identifier("used_loading"@));
    assert(is_identifier("loading_costs"@));
    assert(is_identifier("ident"@));
}

proof fn lemma_sellers_well_formed()
    ensures
        sellers().well_formed(),
{
    reveal_strlit("id");
    reveal_strlit("sellers");
    reveal_strlit("seller_name");
    reveal_strlit("address_line1");
    reveal_strlit("address_line2");
    reveal_strlit("iban");
    reveal_strlit("ident");
    reveal_strlit("is_flat_rate");
    reveal_strlit("is_vat_liable");
    reveal_strlit("used_transport");
    reveal_strlit("used_logging");
    reveal_strlit("used_logging_non_woods");
    reveal_strlit("additional_costs");
    reveal_strlit("transport_costs");
    reveal_strlit("logging_costs");
    assert(is_identifier("sellers"@));
    assert(is_identifier("seller_name"@));
    assert(is_identifier("address_line1"@));
    assert(is_identifier("address_line2"@));
    assert(is_identifier("iban"@));
    assert(is_identifier("ident"@));
    assert(is_identifier("is_flat_rate"@));
    assert(is_identifier("is_vat_liable"@));
    assert(is_identifier("used_transport"@));
    assert(is_identifier("used_logging"@));
    assert(is_identifier("used_logging_non_woods"@));
    assert(is_identifier("additional_costs"@));
    assert(is_identifier("transport_costs"@));
    assert(is_identifier("logging_costs"@));
}

proof fn lemma_tree_species_well_formed()
    ensures
        tree_species().well_formed(),
{
    reveal_strlit("id");
    reveal_strlit("tree_species");
    reveal_strlit("tree_species_name");
    reveal_strlit("latin_name");
    reveal_strlit("tree_species_name_slo");
    assert(is_identifier("tree_species"@));
    assert(is_identifier("tree_species_name"@));
    assert(is_identifier("latin_name"@));
    assert(is_identifier("tree_species_name_slo"@));
}

proof fn lemma_wood_pieces_well_formed()
    ensures
        wood_pieces().well_formed(),
{
    reveal_strlit("id");
    reveal_strlit("wood_pieces");
    reveal_strlit("length");
    reveal_strlit("sequence_no");
    reveal_strlit("width");
    reveal_strlit("plate_no");
    reveal_strlit("seller_id");
    reveal_strlit("tree_species_id");
    reveal_strlit("min_price");
    reveal_strlit("bypass_min_price");
    assert(is_identifier("wood_pieces"@));
    assert(is_identifier("length"@));
    assert(is_identifier("sequence_no"@));
    assert(is_identifier("width"@));
    assert(is_identifier("plate_no"@));
    assert(is_identifier("seller_id"@));
    assert(is_identifier("tree_species_id"@));
    assert(is_identifier("min_price"@));
    assert(is_identifier("bypass_min_price"@));
}

proof fn lemma_wood_piece_offers_well_formed()
    ensures
        wood_piece_offers().well_formed(),
{
    reveal_strlit("id");
    reveal_strlit("wood_piece_offers");
    reveal_strlit("offered_price");
    reveal_strlit("wood_piece_id");
    reveal_strlit("buyer_id");
    assert(is_identifier("wood_piece_offers"@));
    assert(is_identifier("offered_price"@));
    assert(is_identifier("wood_piece_id"@));
    assert(is_identifier("buyer_id"@));
}

proof fn lemma_settings_well_formed()
    ensures
        settings().well_formed(),
{
    reveal_strlit("id");
    reveal_strlit("settings");
    reveal_strlit("licitator_fixed_cost");
    reveal_strlit("licitator_percentage");
    reveal_strlit("bundle_cost");
    assert(is_identifier("settings"@));
    assert(is_identifier("licitator_fixed_cost"@));
    assert(is_identifier("licitator_percentage"@));
    assert(is_identifier("bundle_cost"@));
}


/// The literals of `names` as owned strings.
fn owned(names: Vec<&'static str>) -> (made: Vec<String>)
    ensures
        made.len() == names.len(),
        forall|i: int| 0 <= i < names.len() ==> (#[trigger] made[i])@ == names[i]@,
{
    let mut made: Vec<String> = Vec::new();
    let mut i: usize = 0;
    while i < names.len()
        invariant
            i <= names.len(),
            made.len() == i,
            forall|k: int| 0 <= k < i ==> (#[trigger] made[k])@ == names[k]@,
        decreases names.len() - i,
    {
        made.push(names[i].to_owned());
        i += 1;
    }
    made
}

fn buyers_table() -> (table: TrackedTable)
    ensures
        table@ == buyers(),
{
    proof {
        lemma_buyers_well_formed();
    }
    let columns = owned(
        vec![
            "buyer_name",
            "address_line1",
            "address_line2",
            "additional_costs",
            "is_vat_liable",
            "used_bundle",
            "used_loading",
            "loading_costs",
            "ident",
        ],
    );
    assert(texts(columns@) =~= buyers().columns);
    TrackedTable { name: "buyers".to_owned(), columns }
}

fn sellers_table() -> (table: TrackedTable)
    ensures
        table@ == sellers(),
{
    proof {
        lemma_sellers_well_formed();
    }
    let columns = owned(
        vec![
            "seller_name",
            "address_line1",
            "address_line2",
            "iban",
            "ident",
            "is_flat_rate",
            "is_vat_liable",
            "used_transport",
            "used_logging",
            "used_logging_non_woods",
            "additional_costs",
            "transport_costs",
            "logging_costs",
        ],
    );
    assert(texts(columns@) =~= sellers().columns);
    TrackedTable { name: "sellers".to_owned(), columns }
}

fn tree_species_table() -> (table: TrackedTable)
    ensures
        table@ == tree_species(),
{
    proof {
        lemma_tree_species_well_formed();
    }
    let columns = owned(
        vec![
            "tree_species_name",
            "latin_name",
            "tree_species_name_slo",
        ],
    );
    assert(texts(columns@) =~= tree_species().columns);
    TrackedTable { name: "tree_species".to_owned(), columns }
}

fn wood_pieces_table() -> (table: TrackedTable)
    ensures
        table@ == wood_pieces(),
{
    proof {
        lemma_wood_pieces_well_formed();
    }
    let columns = owned(
        vec![
            "length",
            "sequence_no",
            "width",
            "plate_no",
            "seller_id",
            "tree_species_id",
            "min_price",
            "bypass_min_price",
        ],
    );
    assert(texts(columns@) =~= wood_pieces().columns);
    TrackedTable { name: "wood_pieces".to_owned(), columns }
}

fn wood_piece_offers_table() -> (table: TrackedTable)
    ensures
        table@ == wood_piece_offers(),
{
    proof {
        lemma_wood_piece_offers_well_formed();
    }
    let columns = owned(
        vec![
            "offered_price",
            "wood_piece_id",
            "buyer_id",
        ],
    );
    assert(texts(columns@) =~= wood_piece_offers().columns);
    TrackedTable { name: "wood_piece_offers".to_owned(), columns }
}

fn settings_table() -> (table: TrackedTable)
    ensures
        table@ == settings(),
{
    proof {
        lemma_settings_well_formed();
    }
    let columns = owned(
        vec![
            "licitator_fixed_cost",
            "licitator_percentage",
            "bundle_cost",
        ],
    );
    assert(texts(columns@) =~= settings().columns);
    TrackedTable { name: "settings".to_owned(), columns }
}

/// The tracked tables, in the order in which they are created.
pub fn tracked_tables() -> (tables: Vec<TrackedTable>)
    ensures
        tables.len() == registry().len(),
        forall|i: int| 0 <= i < tables.len() ==> (#[trigger] tables[i])@ == registry()[i],
{
    let mut tables: Vec<TrackedTable> = Vec::new();
    tables.push(buyers_table());
    tables.push(sellers_table());
    tables.push(tree_species_table());
    tables.push(wood_pieces_table());
    tables.push(wood_piece_offers_table());
    tables.push(settings_table());
    tables
}

/// The tracked table of the given name.
///
/// Fails with `UnknownTable` exactly when no table of that name is enrolled.
pub fn find_table(name: &str) -> (found: Result<TrackedTable, ConfigurationError>)
    ensures
        match lookup(name@) {
            Some(schema) => found matches Ok(table) && table@ == schema,
            None => found matches Err(e) && e == ConfigurationError::UnknownTable,
        },
{
    if same_text(name, "buyers") {
        Ok(buyers_table())
    } else if same_text(name, "sellers") {
        Ok(sellers_table())
    } else if same_text(name, "tree_species") {
        Ok(tree_species_table())
    } else if same_text(name, "wood_pieces") {
        Ok(wood_pieces_table())
    } else if same_text(name, "wood_piece_offers") {
        Ok(wood_piece_offers_table())
    } else if same_text(name, "settings") {
        Ok(settings_table())
    } else {
        Err(ConfigurationError::UnknownTable)
    }
}

/// The recorded columns of a tracked table, in order, the key left out.
///
/// Fails with `UnknownTable` exactly when no table of that name is enrolled.
pub fn columns_of(table: &str) -> (columns: Result<Vec<String>, ConfigurationError>)
    ensures
        match lookup(table@) {
            Some(schema) => columns matches Ok(names) && texts(names@) == schema.columns,
            None => columns matches Err(e) && e == ConfigurationError::UnknownTable,
        },
{
    match find_table(table) {
        Ok(found) => {
            let names = found.columns();
            Ok(copy_texts(names))
        },
        Err(e) => Err(e),
    }
}

/// The recorded columns of a tracked table as one text, separated by a
/// comma and a space.
///
/// Fails with `UnknownTable` exactly when no table of that name is enrolled.
pub fn get_column_names(table: &str) -> (names: Result<String, ConfigurationError>)
    ensures
        match lookup(table@) {
            Some(schema) => names matches Ok(list) && list@ == join(schema.columns, ", "@),
            None => names matches Err(e) && e == ConfigurationError::UnknownTable,
        },
{
    match find_table(table) {
        Ok(found) => Ok(join_texts(found.columns(), ", ")),
        Err(e) => Err(e),
    }
}

} // verus!
