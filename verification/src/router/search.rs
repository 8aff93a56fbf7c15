//! How a person, a work or a publication reads wherever it is listed: in search results and in
//! the suggestion dropdowns alike.

use vstd::prelude::*;

use crate::router::item_href;
use crate::text::{concat, decimal, decimal_i64, join, join_strings, owned, push_str};

verus! {

/// A credit as a summary shows it.
pub struct CreditSummary {
    pub person_id: i64,
    pub name: String,
    pub role: String,
}

/// A person, with how many works credit them.
pub struct PersonSummary {
    pub id: i64,
    pub name: String,
    pub works: i64,
}

/// A work, with its catalog numbers and the contributor it leads with.
pub struct WorkSummary {
    pub id: i64,
    pub title: String,
    pub numbers: Vec<String>,
    pub contributor: Option<CreditSummary>,
}

/// A publication, with the people it credits.
pub struct PublicationSummary {
    pub id: i64,
    pub title: String,
    pub people: Vec<String>,
    pub year: Option<i64>,
}

/// Something a search can find.
pub enum Entity {
    Person(PersonSummary),
    Work(WorkSummary),
    Publication(PublicationSummary),
}

/// "Op. 9 No. 2 by Frederic Chopin", or whichever half exists.
pub open spec fn credit_of(what: Option<Seq<char>>, contributor: Option<Seq<char>>) -> Seq<char> {
    match (what, contributor) {
        (Some(w), Some(n)) => w + " by "@ + n,
        (Some(w), None) => w,
        (None, Some(n)) => "by "@ + n,
        (None, None) => seq![],
    }
}

/// "Op. 9 No. 2 by Frederic Chopin", or whichever half exists
pub fn credit(what: Option<&String>, work: &WorkSummary) -> (r: String)
    ensures
        r@ == credit_of(
            match what {
                Some(w) => Some(w@),
                None => None,
            },
            match work.contributor {
                Some(c) => Some(c.name@),
                None => None,
            },
        ),
{
    match (what, &work.contributor) {
        (Some(w), Some(person)) => {
            let mut r = w.clone();
            push_str(&mut r, " by ");
            push_str(&mut r, person.name.as_str());
            r
        },
        (Some(w), None) => w.clone(),
        (None, Some(person)) => concat("by ", person.name.as_str()),
        (None, None) => String::new(),
    }
}

/// How many works a person is credited with, as a summary says it.
pub open spec fn works_count(works: i64) -> Seq<char> {
    if works == 1 {
        "1 work"@
    } else {
        decimal(works as int) + " works"@
    }
}

/// The kind of an entity, as the pages and the dropdown name it.
pub open spec fn entity_kind(entity: Entity) -> Seq<char> {
    match entity {
        Entity::Person(_) => "person"@,
        Entity::Work(_) => "work"@,
        Entity::Publication(_) => "publication"@,
    }
}

/// The two lines a summary of an entity shows: its name or title, and then how many works a
/// person has, a work's first catalog number and lead, or the people a publication credits.
pub open spec fn summary_lines(entity: Entity) -> (Seq<char>, Seq<char>) {
    match entity {
        Entity::Person(p) => (p.name@, works_count(p.works)),
        Entity::Work(w) => (
            w.title@,
            credit_of(
                if w.numbers@.len() > 0 {
                    Some(w.numbers@[0]@)
                } else {
                    None
                },
                match w.contributor {
                    Some(c) => Some(c.name@),
                    None => None,
                },
            ),
        ),
        Entity::Publication(p) => (p.title@, join(p.people@.map_values(|s: String| s@), ", "@)),
    }
}

/// The kind and the two lines of text a summary shows wherever it is listed. Shared with the
/// suggestion dropdowns, so a search hit and a dropdown item read the same.
pub fn describe(entity: &Entity) -> (r: (&'static str, String, String))
    ensures
        r.0@ == entity_kind(*entity),
        (r.1@, r.2@) == summary_lines(*entity),
{
    match entity {
        Entity::Person(person) => {
            let works = if person.works == 1 {
                owned("1 work")
            } else {
                let digits = decimal_i64(person.works);
                concat(digits.as_str(), " works")
            };
            ("person", person.name.clone(), works)
        },
        Entity::Work(work) => {
            let first = if work.numbers.len() > 0 {
                Some(&work.numbers[0])
            } else {
                None
            };
            ("work", work.title.clone(), credit(first, work))
        },
        Entity::Publication(publication) => {
            ("publication", publication.title.clone(), join_strings(&publication.people, ", "))
        },
    }
}

/// Where an entity's page is.
pub open spec fn entity_href(library_id: i64, entity: Entity) -> Seq<char> {
    let id = match entity {
        Entity::Person(p) => p.id,
        Entity::Work(w) => w.id,
        Entity::Publication(p) => p.id,
    };
    item_href(library_id, entity_kind(entity), id)
}

/// Where an entity's page is.
pub fn href(library_id: i64, entity: &Entity) -> (r: String)
    ensures
        r@ == entity_href(library_id, *entity),
{
    let (kind, id): (&str, i64) = match entity {
        Entity::Person(person) => ("person", person.id),
        Entity::Work(work) => ("work", work.id),
        Entity::Publication(publication) => ("publication", publication.id),
    };
    crate::router::item_path(library_id, kind, id)
}

} // verus!
