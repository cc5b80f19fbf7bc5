//! Rows of the history table.
use vstd::prelude::*;

verus! {

#[verifier::external_type_specification]
#[verifier::external_body]
pub struct ExNaiveDateTime(chrono::NaiveDateTime);

/// One applied migration as recorded in the history table.
#[derive(Debug)]
pub struct ScurryMetadata {
    pub id: i32,
    pub migration_date: chrono::NaiveDateTime,
    pub script_hash: String,
    pub script_name: String,
    pub script_version: String,
}

/// What the logic reads of a history row.
pub struct HistoryView {
    pub hash: Seq<char>,
    pub name: Seq<char>,
    pub version: Seq<char>,
}

impl View for ScurryMetadata {
    type V = HistoryView;

    open spec fn view(&self) -> HistoryView {
        HistoryView {
            hash: self.script_hash@,
            name: self.script_name@,
            version: self.script_version@,
        }
    }
}

/// The views of a sequence of history rows.
pub open spec fn history_view(s: Seq<ScurryMetadata>) -> Seq<HistoryView> {
    s.map_values(|m: ScurryMetadata| m@)
}

} // verus!
