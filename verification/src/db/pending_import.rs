use vstd::prelude::*;

use crate::db::publication::HoldingKind;

verus! {

/// One copy as the entry page entered it
#[derive(Debug, PartialEq, Eq)]
pub struct PendingHolding {
    pub kind: HoldingKind,
    pub location: Option<String>,
}

/// An import the user has started but not yet accepted or discarded
#[derive(Debug, PartialEq, Eq)]
pub struct PendingImport {
    pub id: i64,
    pub library_id: i64,
    pub library_name: String,
    pub query: String,
    pub holdings: Vec<PendingHolding>,
    /// Unix seconds
    pub created_at: i64,
}

pub struct NewPendingImport<'a> {
    pub library_id: i64,
    pub query: &'a str,
    pub holdings: &'a [PendingHolding],
}

} // verus!
