//! A Postgres session.
use vstd::prelude::*;

verus! {

#[verifier::external_type_specification]
#[verifier::external_body]
pub struct ExPgClient(::postgres::Client);

/// A Postgres connection and the directory that holds its migrations.
/// Postgres can lock the history table, so concurrent runs are serialized.
pub struct Postgres {
    pub conn: ::postgres::Client,
    pub migrations_dir: String,
}

impl Postgres {
    /// Postgres takes an exclusive table lock inside a transaction.
    pub fn supports_locking(&self) -> (r: bool)
        ensures
            r,
    {
        true
    }
}

/// Opens a session over `conn` for the scripts in `migrations_dir`.
pub fn establish(conn: ::postgres::Client, migrations_dir: &str) -> (r: Postgres)
    ensures
        r.conn == conn,
        r.migrations_dir@ == migrations_dir@,
{
    Postgres { conn, migrations_dir: migrations_dir.to_owned() }
}

} // verus!
