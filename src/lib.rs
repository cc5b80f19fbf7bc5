//! Forward-only SQL schema migrations.
//!
//! Migration scripts live in one directory as `<version>__<name>.sql`. The
//! library turns those scripts and a database's history table into a
//! validated common history, an ordered upgrade plan and a drift report, and
//! drives the application of the plan as a state machine whose actions a
//! database backend carries out.
pub mod catalog;
pub mod connection;
pub mod error;
pub mod executor;
pub mod history;
pub mod models;
pub mod versions;

pub use history::HistoryDifferences;
pub use versions::{DesiredVersion, Version};

use vstd::prelude::*;
use catalog::{catalog_of, script_loads, scripts_view, ScriptFile};
use error::ScurryError;
use versions::catalog_view;

verus! {

/// The catalog that a listing of the migrations directory yields; see
/// `catalog::calculate_available_versions`.
pub fn get_available_versions(scripts: &[ScriptFile]) -> (r: Result<Vec<Version>, ScurryError>)
    ensures
        match r {
            Ok(v) => {
                &&& forall|i: int| 0 <= i < scripts@.len() ==> script_loads(#[trigger] scripts@[i]@)
                &&& catalog_view(v@) == catalog_of(scripts_view(scripts@))
            },
            Err(e) => {
                &&& exists|i: int| 0 <= i < scripts@.len() && !script_loads(#[trigger] scripts@[i]@)
                &&& e is Parse
            },
        },
{
    catalog::calculate_available_versions(scripts)
}

/// A session for migrating a Postgres database.
pub fn from_postgres(pg_conn: ::postgres::Client, migrations_dir: &str) -> (r:
    connection::postgres::Postgres)
    ensures
        r.conn == pg_conn,
        r.migrations_dir@ == migrations_dir@,
{
    connection::postgres::establish(pg_conn, migrations_dir)
}

/// A session for migrating a SQLite database.
pub fn from_sqlite(sqlite_conn: ::rusqlite::Connection, migrations_dir: &str) -> (r:
    connection::sqlite::Sqlite)
    ensures
        r.conn == sqlite_conn,
        r.migrations_dir@ == migrations_dir@,
{
    connection::sqlite::establish(sqlite_conn, migrations_dir)
}

} // verus!
