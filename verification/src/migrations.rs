//! The ledger of the application: the steps that provision its local
//! store of settings and of cached comparisons between a production shop
//! and a staging shop.

use crate::ledger::ascending;
use crate::step::{versions_of, Direction, MigrationStep, StepView};
use vstd::prelude::*;

verus! {

/// The table of settings: one row for each key.
pub const CREATE_SETTINGS_TABLE: &'static str = "CREATE TABLE IF NOT EXISTS settings (
                id INTEGER PRIMARY KEY AUTOINCREMENT,
                key TEXT NOT NULL UNIQUE,
                value TEXT NOT NULL,
                created_at TIMESTAMP DEFAULT CURRENT_TIMESTAMP,
                updated_at TIMESTAMP DEFAULT CURRENT_TIMESTAMP
            );";

/// The setting that holds the address of the production store.
pub const INSERT_PRODUCTION_URL: &'static str = "INSERT INTO settings (key, value) VALUES ('shopifyProductionStoreUrl', '');";

/// The setting that holds the access token of the production store.
pub const INSERT_PRODUCTION_ACCESS_TOKEN: &'static str = "INSERT INTO settings (key, value) VALUES ('shopifyProductionAccessToken', '');";

/// The setting that holds the address of the staging store.
pub const INSERT_STAGING_URL: &'static str = "INSERT INTO settings (key, value) VALUES ('shopifyStagingStoreUrl', '');";

/// The setting that holds the access token of the staging store.
pub const INSERT_STAGING_ACCESS_TOKEN: &'static str = "INSERT INTO settings (key, value) VALUES ('shopifyStagingAccessToken', '');";

/// The cache of compared collections.
pub const CREATE_COLLECTIONS_TABLE: &'static str = "CREATE TABLE IF NOT EXISTS collections (
                handle TEXT PRIMARY KEY,
                production_id TEXT,
                staging_id TEXT,
                title TEXT NOT NULL,
                differences TEXT,
                updated_at TIMESTAMP NOT NULL,
                compared_at TIMESTAMP NOT NULL DEFAULT CURRENT_TIMESTAMP
            );";

/// The cache of compared pages.
pub const CREATE_PAGES_TABLE: &'static str = "CREATE TABLE IF NOT EXISTS pages (
                handle TEXT PRIMARY KEY,
                production_id TEXT,
                staging_id TEXT,
                title TEXT NOT NULL,
                differences TEXT,
                updated_at TIMESTAMP NOT NULL,
                compared_at TIMESTAMP NOT NULL DEFAULT CURRENT_TIMESTAMP
            );";

/// The cache of compared products.
pub const CREATE_PRODUCTS_TABLE: &'static str = "CREATE TABLE IF NOT EXISTS products (
                handle TEXT PRIMARY KEY,
                production_id TEXT,
                staging_id TEXT,
                title TEXT NOT NULL,
                differences TEXT,
                updated_at TIMESTAMP NOT NULL,
                compared_at TIMESTAMP NOT NULL DEFAULT CURRENT_TIMESTAMP
            );";

/// The table of settings of the user interface.
pub const CREATE_UI_SETTINGS_TABLE: &'static str = "CREATE TABLE IF NOT EXISTS ui_settings (
                key TEXT PRIMARY KEY,
                value TEXT NOT NULL,
                created_at TIMESTAMP DEFAULT CURRENT_TIMESTAMP,
                updated_at TIMESTAMP DEFAULT CURRENT_TIMESTAMP
            );";

/// The collections that a cached product belongs to.
pub const ADD_COLLECTIONS_TO_PRODUCTS: &'static str = "ALTER TABLE products ADD COLUMN collections TEXT NOT NULL DEFAULT '';";

/// The cache of compared files.
pub const CREATE_FILES_TABLE: &'static str = "CREATE TABLE IF NOT EXISTS files (
                id TEXT PRIMARY KEY,
                production_id TEXT,
                staging_id TEXT,
                alt TEXT,
                url TEXT,
                differences TEXT,
                updated_at TIMESTAMP NOT NULL,
                compared_at TIMESTAMP NOT NULL DEFAULT CURRENT_TIMESTAMP
            );";

/// The steps that provision the store of the application, oldest first.
/// A step that has been released is never changed, renumbered or taken
/// out: a store knows a step by its version alone.
pub open spec fn application_ledger() -> Seq<StepView> {
    seq![
        StepView { version: 1, description: "create_settings_table"@, statement: CREATE_SETTINGS_TABLE@ },
        StepView { version: 2, description: "insert_settings_production_url"@, statement: INSERT_PRODUCTION_URL@ },
        StepView { version: 3, description: "insert_settings_production_access_token"@, statement: INSERT_PRODUCTION_ACCESS_TOKEN@ },
        StepView { version: 4, description: "insert_settings_staging_url"@, statement: INSERT_STAGING_URL@ },
        StepView { version: 5, description: "insert_settings_staging_access_token"@, statement: INSERT_STAGING_ACCESS_TOKEN@ },
        StepView { version: 6, description: "create_collections_table"@, statement: CREATE_COLLECTIONS_TABLE@ },
        StepView { version: 7, description: "create_pages_table"@, statement: CREATE_PAGES_TABLE@ },
        StepView { version: 8, description: "create_products_table"@, statement: CREATE_PRODUCTS_TABLE@ },
        StepView { version: 9, description: "create_ui_settings_table"@, statement: CREATE_UI_SETTINGS_TABLE@ },
        StepView { version: 10, description: "add_collections_to_products"@, statement: ADD_COLLECTIONS_TO_PRODUCTS@ },
        StepView { version: 11, description: "create_files_table"@, statement: CREATE_FILES_TABLE@ },
    ]
}

/// The ledger of the application: its eleven steps, with the versions 1 to
/// 11 in this order, every one a forward step.
pub fn migrations() -> (steps: Vec<MigrationStep>)
    ensures
        steps@.len() == 11,
        forall|i: int|
            0 <= i < 11 ==> (#[trigger] steps@[i])@ == application_ledger()[i] && steps@[i].direction
                == Direction::Up,
        versions_of(steps@) == Seq::new(11, |i: int| i + 1),
        versions_of(steps@).no_duplicates(),
        ascending(versions_of(steps@)),
{
    let mut steps: Vec<MigrationStep> = Vec::new();
    steps.push(MigrationStep::new(1, "create_settings_table", CREATE_SETTINGS_TABLE));
    steps.push(MigrationStep::new(2, "insert_settings_production_url", INSERT_PRODUCTION_URL));
    steps.push(MigrationStep::new(3, "insert_settings_production_access_token", INSERT_PRODUCTION_ACCESS_TOKEN));
    steps.push(MigrationStep::new(4, "insert_settings_staging_url", INSERT_STAGING_URL));
    steps.push(MigrationStep::new(5, "insert_settings_staging_access_token", INSERT_STAGING_ACCESS_TOKEN));
    steps.push(MigrationStep::new(6, "create_collections_table", CREATE_COLLECTIONS_TABLE));
    steps.push(MigrationStep::new(7, "create_pages_table", CREATE_PAGES_TABLE));
    steps.push(MigrationStep::new(8, "create_products_table", CREATE_PRODUCTS_TABLE));
    steps.push(MigrationStep::new(9, "create_ui_settings_table", CREATE_UI_SETTINGS_TABLE));
    steps.push(MigrationStep::new(10, "add_collections_to_products", ADD_COLLECTIONS_TO_PRODUCTS));
    steps.push(MigrationStep::new(11, "create_files_table", CREATE_FILES_TABLE));
    assert(versions_of(steps@) =~= Seq::new(11, |i: int| i + 1));
    steps
}

} // verus!
