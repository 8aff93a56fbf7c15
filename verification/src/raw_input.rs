//! Publications and works as typed, before validation: what a form posts, what a draft holds and
//! what an outside source finds.

use vstd::prelude::*;

use crate::import::row_views;
use crate::publication_form::{ContributorRow, HoldingRow, IdentifierRow};

verus! {

/// A credit as typed: a name and a role.
pub type ContributorInput = ContributorRow;

/// A copy as typed.
pub type HoldingRawInput = HoldingRow;

/// An identifier as typed: a kind name and a value.
pub type IdentifierRawInput = IdentifierRow;

/// A work's fields as typed.
#[derive(Debug, PartialEq, Eq)]
pub struct WorkRawInput {
    /// The stored work this input edits; None for one being added
    pub id: Option<i64>,
    pub title: String,
    pub key: String,
    pub time_signature: String,
    pub instrumentation: String,
    pub contributors: Vec<ContributorInput>,
    pub catalog_numbers: Vec<String>,
}

/// A publication's fields as typed, with its works.
#[derive(Debug, PartialEq, Eq)]
pub struct PublicationRawInput {
    pub title: String,
    pub publisher: String,
    pub year: String,
    pub holdings: Vec<HoldingRawInput>,
    pub identifiers: Vec<IdentifierRawInput>,
    pub contributors: Vec<ContributorInput>,
    /// Pages about the publication elsewhere
    pub links: Vec<String>,
    pub contents: Vec<WorkRawInput>,
}

/// The texts of a list of strings.
pub open spec fn texts(s: Seq<String>) -> Seq<Seq<char>> {
    s.map_values(|x: String| x@)
}

/// An identifier by its values, as (kind name, value).
pub open spec fn identifier_input_view(i: IdentifierRawInput) -> (Seq<char>, Seq<char>) {
    (i.kind@, i.value@)
}

pub open spec fn identifier_input_views(s: Seq<IdentifierRawInput>) -> Seq<(Seq<char>, Seq<char>)> {
    s.map_values(|i: IdentifierRawInput| identifier_input_view(i))
}

/// A work by its values: (id, title, key, time signature, instrumentation, credits, catalog
/// numbers).
pub open spec fn work_input_view(w: WorkRawInput) -> (
    Option<i64>,
    Seq<char>,
    Seq<char>,
    Seq<char>,
    Seq<char>,
    Seq<(Seq<char>, Seq<char>)>,
    Seq<Seq<char>>,
) {
    (
        w.id,
        w.title@,
        w.key@,
        w.time_signature@,
        w.instrumentation@,
        row_views(w.contributors@),
        texts(w.catalog_numbers@),
    )
}

pub open spec fn work_input_views(s: Seq<WorkRawInput>) -> Seq<
    (
        Option<i64>,
        Seq<char>,
        Seq<char>,
        Seq<char>,
        Seq<char>,
        Seq<(Seq<char>, Seq<char>)>,
        Seq<Seq<char>>,
    ),
> {
    s.map_values(|w: WorkRawInput| work_input_view(w))
}

impl Default for WorkRawInput {
    fn default() -> (r: Self)
        ensures
            r.id is None,
            r.title@.len() == 0,
            r.key@.len() == 0,
            r.time_signature@.len() == 0,
            r.instrumentation@.len() == 0,
            r.contributors@.len() == 0,
            r.catalog_numbers@.len() == 0,
    {
        WorkRawInput {
            id: None,
            title: String::new(),
            key: String::new(),
            time_signature: String::new(),
            instrumentation: String::new(),
            contributors: Vec::new(),
            catalog_numbers: Vec::new(),
        }
    }
}

impl Clone for WorkRawInput {
    fn clone(&self) -> (r: Self)
        ensures
            work_input_view(r) == work_input_view(*self),
    {
        let r = WorkRawInput {
            id: self.id,
            title: self.title.clone(),
            key: self.key.clone(),
            time_signature: self.time_signature.clone(),
            instrumentation: self.instrumentation.clone(),
            contributors: self.contributors.clone(),
            catalog_numbers: self.catalog_numbers.clone(),
        };
        assert(r.contributors@ =~= self.contributors@);
        assert(texts(r.catalog_numbers@) =~= texts(self.catalog_numbers@));
        r
    }
}

impl Default for PublicationRawInput {
    fn default() -> (r: Self)
        ensures
            r.title@.len() == 0,
            r.publisher@.len() == 0,
            r.year@.len() == 0,
            r.holdings@.len() == 0,
            r.identifiers@.len() == 0,
            r.contributors@.len() == 0,
            r.links@.len() == 0,
            r.contents@.len() == 0,
    {
        PublicationRawInput {
            title: String::new(),
            publisher: String::new(),
            year: String::new(),
            holdings: Vec::new(),
            identifiers: Vec::new(),
            contributors: Vec::new(),
            links: Vec::new(),
            contents: Vec::new(),
        }
    }
}

} // verus!
