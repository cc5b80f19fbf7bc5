//! A SQLite session.
use vstd::prelude::*;

verus! {

#[verifier::external_type_specification]
#[verifier::external_body]
pub struct ExSqliteConnection(::rusqlite::Connection);

/// A SQLite connection and the directory that holds its migrations.
/// SQLite has no table lock: runs against one file must not overlap.
pub struct Sqlite {
    pub conn: ::rusqlite::Connection,
    pub migrations_dir: String,
}

impl Sqlite {
    /// SQLite offers no exclusive table lock; locking is skipped.
    pub fn supports_locking(&self) -> (r: bool)
        ensures
            !r,
    {
        false
    }
}

/// Opens a session over `conn` for the scripts in `migrations_dir`.
pub fn establish(conn: ::rusqlite::Connection, migrations_dir: &str) -> (r: Sqlite)
    ensures
        r.conn == conn,
        r.migrations_dir@ == migrations_dir@,
{
    Sqlite { conn, migrations_dir: migrations_dir.to_owned() }
}

} // verus!
