//! The library's errors.
use vstd::prelude::*;
use vstd::string::StringExecFns;

verus! {

/// Why a schema's history cannot be reconciled with the catalog of scripts.
#[derive(Debug)]
pub enum Inconsistency {
    /// The history holds `installed` where the catalog holds `available`.
    VersionMismatch { installed: String, available: String },
    /// The script applied as `version` has changed on disk since.
    HashMismatch { version: String, installed_hash: String, available_hash: String },
    /// The schema holds a version past the end of the catalog.
    UnknownVersion { version: String },
}

/// What the logic reads of an [`Inconsistency`].
pub enum InconsistencyView {
    VersionMismatch { installed: Seq<char>, available: Seq<char> },
    HashMismatch { version: Seq<char>, installed_hash: Seq<char>, available_hash: Seq<char> },
    UnknownVersion { version: Seq<char> },
}

impl View for Inconsistency {
    type V = InconsistencyView;

    open spec fn view(&self) -> InconsistencyView {
        match self {
            Inconsistency::VersionMismatch { installed, available } => {
                InconsistencyView::VersionMismatch { installed: installed@, available: available@ }
            },
            Inconsistency::HashMismatch { version, installed_hash, available_hash } => {
                InconsistencyView::HashMismatch {
                    version: version@,
                    installed_hash: installed_hash@,
                    available_hash: available_hash@,
                }
            },
            Inconsistency::UnknownVersion { version } => {
                InconsistencyView::UnknownVersion { version: version@ }
            },
        }
    }
}

/// The text that reports an inconsistency.
pub open spec fn message_of(x: InconsistencyView) -> Seq<char> {
    match x {
        InconsistencyView::VersionMismatch { installed, available } => "Version mismatch: "@
            + installed + " != "@ + available,
        InconsistencyView::HashMismatch { version, installed_hash, available_hash } =>
            "Version hash mismatch for version "@ + version + ": "@ + installed_hash + " != "@
            + available_hash,
        InconsistencyView::UnknownVersion { version } => "Schema contains unknown version "@
            + version,
    }
}

impl Inconsistency {
    /// A one-line description, naming the versions and hashes involved.
    pub fn message(&self) -> (r: String)
        ensures
            r@ == message_of(self@),
    {
        let mut out = String::new();
        match self {
            Inconsistency::VersionMismatch { installed, available } => {
                out.append("Version mismatch: ");
                out.append(installed.as_str());
                out.append(" != ");
                out.append(available.as_str());
            },
            Inconsistency::HashMismatch { version, installed_hash, available_hash } => {
                out.append("Version hash mismatch for version ");
                out.append(version.as_str());
                out.append(": ");
                out.append(installed_hash.as_str());
                out.append(" != ");
                out.append(available_hash.as_str());
            },
            Inconsistency::UnknownVersion { version } => {
                out.append("Schema contains unknown version ");
                out.append(version.as_str());
            },
        }
        out
    }
}

/// Errors of the library: reading the scripts (`Io`), reading their file
/// names (`Parse`), the database driver (`Sql`), and a history that does not
/// match the catalog (`Consistency`).
#[derive(Debug)]
pub enum ScurryError {
    Io(String),
    Parse(String),
    Sql(String),
    Consistency(Inconsistency),
}

} // verus!
