use licitacija::export;
use licitacija::schema::{
    check_identifier, columns_of, find_table, get_column_names, tracked_tables,
    ConfigurationError, TrackedTable,
};

#[test]
fn buyers_columns_are_listed_in_order() {
    assert_eq!(
        get_column_names("buyers").unwrap(),
        "buyer_name, address_line1, address_line2, additional_costs, is_vat_liable, used_bundle, used_loading, loading_costs, ident"
    );
}

#[test]
fn every_tracked_table_lists_its_columns() {
    assert_eq!(
        get_column_names("sellers").unwrap(),
        "seller_name, address_line1, address_line2, iban, ident, is_flat_rate, is_vat_liable, used_transport, used_logging, used_logging_non_woods, additional_costs, transport_costs, logging_costs"
    );
    assert_eq!(
        get_column_names("tree_species").unwrap(),
        "tree_species_name, latin_name, tree_species_name_slo"
    );
    assert_eq!(
        get_column_names("wood_pieces").unwrap(),
        "length, sequence_no, width, plate_no, seller_id, tree_species_id, min_price, bypass_min_price"
    );
    assert_eq!(
        get_column_names("wood_piece_offers").unwrap(),
        "offered_price, wood_piece_id, buyer_id"
    );
    assert_eq!(
        get_column_names("settings").unwrap(),
        "licitator_fixed_cost, licitator_percentage, bundle_cost"
    );
}

#[test]
fn exported_columns_start_with_the_key() {
    assert_eq!(
        export::get_column_names("buyers").unwrap(),
        "id, buyer_name, address_line1, address_line2, additional_costs, is_vat_liable, used_bundle, used_loading, loading_costs, ident"
    );
    assert_eq!(
        export::get_column_names("sellers").unwrap(),
        "id, seller_name, address_line1, address_line2, iban, ident, is_flat_rate, is_vat_liable, used_transport, used_logging, used_logging_non_woods, additional_costs, transport_costs, logging_costs"
    );
    assert_eq!(
        export::get_column_names("tree_species").unwrap(),
        "id, tree_species_name, latin_name, tree_species_name_slo"
    );
    assert_eq!(
        export::get_column_names("wood_pieces").unwrap(),
        "id, length, sequence_no, width, plate_no, seller_id, tree_species_id, min_price, bypass_min_price"
    );
    assert_eq!(
        export::get_column_names("wood_piece_offers").unwrap(),
        "id, offered_price, wood_piece_id, buyer_id"
    );
    assert_eq!(
        export::get_column_names("settings").unwrap(),
        "id, licitator_fixed_cost, licitator_percentage, bundle_cost"
    );
    assert_eq!(export::get_column_names("images"), Err(ConfigurationError::UnknownTable));
}

#[test]
fn unknown_table_is_refused() {
    assert_eq!(columns_of("images"), Err(ConfigurationError::UnknownTable));
    assert_eq!(columns_of(""), Err(ConfigurationError::UnknownTable));
    assert_eq!(get_column_names("undolog"), Err(ConfigurationError::UnknownTable));
    assert!(find_table("Buyers").is_err());
}

#[test]
fn columns_of_gives_the_names_one_by_one() {
    assert_eq!(
        columns_of("wood_piece_offers").unwrap(),
        vec!["offered_price".to_string(), "wood_piece_id".to_string(), "buyer_id".to_string()]
    );
}

#[test]
fn registry_holds_six_tables_in_creation_order() {
    let names: Vec<String> = tracked_tables().iter().map(|t| t.name().to_string()).collect();
    assert_eq!(
        names,
        vec!["buyers", "sellers", "tree_species", "wood_pieces", "wood_piece_offers", "settings"]
    );
    for table in tracked_tables() {
        assert_eq!(table.primary_key(), "id");
        assert!(!table.columns().is_empty());
        assert_eq!(find_table(table.name()).unwrap(), table);
    }
}

#[test]
fn schema_is_validated() {
    let made = TrackedTable::new("notes", vec!["title".to_string(), "body".to_string()]).unwrap();
    assert_eq!(made.name(), "notes");
    assert_eq!(made.columns().len(), 2);
    assert_eq!(
        TrackedTable::new("notes", vec![]),
        Err(ConfigurationError::InvalidSchema)
    );
    assert_eq!(
        TrackedTable::new("notes", vec!["id".to_string()]),
        Err(ConfigurationError::InvalidSchema)
    );
    assert_eq!(
        TrackedTable::new("no tes", vec!["title".to_string()]),
        Err(ConfigurationError::InvalidSchema)
    );
    assert_eq!(
        TrackedTable::new("notes", vec!["ti'tle".to_string()]),
        Err(ConfigurationError::InvalidSchema)
    );
    assert_eq!(
        TrackedTable::new("notes; DROP TABLE buyers", vec!["title".to_string()]),
        Err(ConfigurationError::InvalidSchema)
    );
}

#[test]
fn identifiers_are_letters_digits_and_underscores() {
    assert!(check_identifier("buyer_name"));
    assert!(check_identifier("_x9"));
    assert!(!check_identifier(""));
    assert!(!check_identifier("9lives"));
    assert!(!check_identifier("a-b"));
    assert!(!check_identifier("a b"));
    assert!(!check_identifier("češnja"));
}

#[test]
fn live_columns_must_be_the_key_and_the_recorded_columns() {
    let offers = find_table("wood_piece_offers").unwrap();
    let live = |names: &[&str]| names.iter().map(|n| n.to_string()).collect::<Vec<String>>();
    assert!(offers.matches_live(&live(&["id", "offered_price", "wood_piece_id", "buyer_id"])));
    assert!(!offers.matches_live(&live(&["id", "offered_price", "buyer_id", "wood_piece_id"])));
    assert!(!offers.matches_live(&live(&["id", "offered_price", "wood_piece_id"])));
    assert!(!offers.matches_live(&live(&["offered_price", "wood_piece_id", "buyer_id", "id"])));
    assert!(!offers.matches_live(&live(&[
        "id",
        "offered_price",
        "wood_piece_id",
        "buyer_id",
        "note"
    ])));
    assert!(!offers.matches_live(&live(&[])));
}

#[test]
fn live_check_lets_a_missing_table_pass() {
    let offers = find_table("wood_piece_offers").unwrap();
    let live = |names: &[&str]| names.iter().map(|n| n.to_string()).collect::<Vec<String>>();
    assert_eq!(offers.check_live(&live(&[])), Ok(()));
    assert_eq!(
        offers.check_live(&live(&["id", "offered_price", "wood_piece_id", "buyer_id"])),
        Ok(())
    );
    assert_eq!(
        offers.check_live(&live(&["id", "offered_price", "wood_piece_id"])),
        Err(ConfigurationError::StaleSchema)
    );
    assert_eq!(offers.check_live(&live(&["id"])), Err(ConfigurationError::StaleSchema));
}
