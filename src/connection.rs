//! Sessions that tie a database connection to a migrations directory.
pub mod postgres;
pub mod sqlite;
