//! The rows that a fresh store starts with.

use vstd::prelude::*;

verus! {

/// Inserts the tree species that the store knows from the start.
pub const SQL_STATEMENT_TREE_SPECIES: &'static str =
    "INSERT INTO tree_species (tree_species_name, latin_name, tree_species_name_slo) VALUES
    ('Sessile oak', 'Quercus petraea', 'Hrast graden'),
    ('Pedunculate oak', 'Quercus robur', 'Hrast dob'),
    ('Beech', 'Fagus sylvatica', 'Bukev'),
    ('Black locust', 'Robinia pseudoacacia', 'Robinija'),
    ('European ash', 'Fraxinus excelsior', 'Veliki jesen'),
    ('Linden', 'Tilia spp.', 'Lipa'),
    ('Wild cherry', 'Prunus avium', 'Divja češnja'),
    ('Sharp-leaved ash', 'Fraxinus angustifolia', 'Ostrolistni jesen'),
    ('Black alder', 'Alnus glutinosa', 'Črna jelša'),
    ('Walnut', 'Juglans regia', 'Domači oreh'),
    ('Black poplar', 'Populus nigra', 'Črni topol'),
    ('Pear', 'Pyrus spp.', 'Hruška'),
    ('Sweet chestnut', 'Castanea sativa', 'Pravi kostanj'),
    ('Douglas fir', 'Pseudotsuga menziesii', 'Duglazija'),
    ('Northern red oak', 'Quercus rubra', 'Rdeči hrast'),
    ('European white elm', 'Ulmus laevis', 'Vezi'),
    ('Eastern white pine', 'Pinus strobus', 'Zeleni bor'),
    ('Scots pine', 'Pinus sylvestris', 'Rdeči bor'),
    ('Spruce', 'Picea abies', 'Smreka'),
    ('Sycamore maple', 'Acer pseudoplatanus', 'Gorski javor');";

/// Inserts the settings that the store starts with.
pub const SQL_STATEMENT_SETTINGS: &'static str =
    "INSERT INTO settings (licitator_fixed_cost, licitator_percentage, bundle_cost) VALUES (22.0, 0.06, 7.0);";

/// Inserts the two image slots, unless they are there already.
pub const SQL_STATEMENT_IMAGES: &'static str =
    "INSERT OR IGNORE INTO images (image_key, mime_type, data_base64) VALUES
    ('header', NULL, NULL),
    ('wood', NULL, NULL);";

} // verus!
