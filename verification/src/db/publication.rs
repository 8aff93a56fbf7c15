use vstd::prelude::*;

use crate::db::person::{Contributor, roles_of_person};
use crate::db::{children_at, group_by_parent};
use crate::identifier;
use crate::text::{concat, str_eq};

verus! {

/// A publication with its children, as read back. Pages pick the fields they show.
#[derive(Debug, PartialEq, Eq)]
pub struct Publication {
    pub id: i64,
    pub library_id: i64,
    pub title: String,
    pub publisher: Option<String>,
    pub year: Option<i64>,
    pub identifiers: Vec<Identifier>,
    pub contributors: Vec<Contributor>,
    pub holdings: Vec<Holding>,
}

impl Publication {
    /// The roles one person is credited with, for pages about that person.
    pub fn roles_of(&self, person_id: i64) -> (r: Vec<&str>)
        ensures
            r@.map_values(|s: &str| s@) == roles_of_person(self.contributors@, person_id),
    {
        crate::db::person::roles_of(&self.contributors, person_id)
    }
}

#[derive(Debug, PartialEq, Eq)]
pub struct Identifier {
    pub id: i64,
    pub kind: identifier::Kind,
    pub value: String,
}

#[derive(Debug, PartialEq, Eq)]
pub struct Holding {
    pub id: i64,
    pub kind: HoldingKind,
    pub location: Option<String>,
}

pub struct NewPublication<'a> {
    pub library_id: i64,
    pub title: &'a str,
    pub publisher: Option<&'a str>,
    pub year: Option<i64>,
}

#[derive(Debug, Clone, Copy, PartialEq, Eq, Structural)]
pub enum HoldingKind {
    Physical,
    Digital,
}

impl HoldingKind {
    /// The name a kind is stored and posted under.
    pub open spec fn name(self) -> Seq<char> {
        match self {
            HoldingKind::Physical => "physical"@,
            HoldingKind::Digital => "digital"@,
        }
    }

    pub fn as_str(self) -> (r: &'static str)
        ensures
            r@ == self.name(),
    {
        match self {
            HoldingKind::Physical => "physical",
            HoldingKind::Digital => "digital",
        }
    }

    /// The kind a name stands for, if any.
    pub open spec fn named(s: Seq<char>) -> Option<HoldingKind> {
        if s == "physical"@ {
            Some(HoldingKind::Physical)
        } else if s == "digital"@ {
            Some(HoldingKind::Digital)
        } else {
            None
        }
    }

    /// Read a kind from its name; anything else is refused with a message naming it.
    pub fn from_name(s: &str) -> (r: Result<HoldingKind, String>)
        ensures
            r matches Ok(kind) ==> HoldingKind::named(s@) == Some(kind),
            r matches Err(message) ==> HoldingKind::named(s@) is None && message@
                == "unknown holding kind: "@ + s@,
    {
        if str_eq(s, "physical") {
            Ok(HoldingKind::Physical)
        } else if str_eq(s, "digital") {
            Ok(HoldingKind::Digital)
        } else {
            Err(concat("unknown holding kind: ", s))
        }
    }
}

impl core::str::FromStr for HoldingKind {
    type Err = String;

    fn from_str(s: &str) -> Result<Self, Self::Err> {
        HoldingKind::from_name(s)
    }
}

/// Each kind's name reads back as that kind.
pub proof fn lemma_holding_kind_roundtrip(kind: HoldingKind)
    ensures
        HoldingKind::named(kind.name()) == Some(kind),
{
    reveal_strlit("physical");
    reveal_strlit("digital");
    assert("physical"@.len() != "digital"@.len());
}


/// The ids of these publications, in order.
pub open spec fn publication_ids(publications: Seq<Publication>) -> Seq<i64> {
    publications.map_values(|p: Publication| p.id)
}

/// A publication's own fields, apart from its children.
pub open spec fn publication_fields(p: Publication) -> (i64, i64, String, Option<String>, Option<i64>) {
    (p.id, p.library_id, p.title, p.publisher, p.year)
}

/// Publications as read back with their children: every identifier, credit and copy row goes to
/// the publication whose id it names, in row order. Every id a row names is a publication's; where
/// two publications share an id, the later one takes the rows.
pub fn assemble(
    publications: Vec<Publication>,
    identifiers: Vec<(i64, Identifier)>,
    contributors: Vec<(i64, Contributor)>,
    holdings: Vec<(i64, Holding)>,
) -> (r: Vec<Publication>)
    requires
        forall|i: int|
            0 <= i < identifiers@.len() ==> publication_ids(publications@).contains(
                #[trigger] identifiers@[i].0,
            ),
        forall|i: int|
            0 <= i < contributors@.len() ==> publication_ids(publications@).contains(
                #[trigger] contributors@[i].0,
            ),
        forall|i: int|
            0 <= i < holdings@.len() ==> publication_ids(publications@).contains(
                #[trigger] holdings@[i].0,
            ),
    ensures
        r@.len() == publications@.len(),
        forall|p: int|
            0 <= p < r@.len() ==> {
                &&& publication_fields(#[trigger] r@[p]) == publication_fields(publications@[p])
                &&& r@[p].identifiers@ == children_at(identifiers@, publication_ids(publications@), p)
                &&& r@[p].contributors@ == children_at(contributors@, publication_ids(publications@), p)
                &&& r@[p].holdings@ == children_at(holdings@, publication_ids(publications@), p)
            },
{
    let ghost base = publications@;
    let mut ids: Vec<i64> = Vec::new();
    let mut i: usize = 0;
    while i < publications.len()
        invariant
            i <= publications.len(),
            ids@ == publication_ids(publications@).take(i as int),
        decreases publications.len() - i,
    {
        ids.push(publications[i].id);
        assert(ids@ =~= publication_ids(publications@).take(i + 1));
        i = i + 1;
    }
    assert(ids@ =~= publication_ids(publications@));
    let ghost id_rows = identifiers@;
    let ghost credit_rows = contributors@;
    let ghost copy_rows = holdings@;
    let mut identifier_groups = group_by_parent(&ids, identifiers);
    let mut contributor_groups = group_by_parent(&ids, contributors);
    let mut holding_groups = group_by_parent(&ids, holdings);
    let mut publications = publications;
    let mut r: Vec<Publication> = Vec::new();
    let n = publications.len();
    while publications.len() > 0
        invariant
            publications@.len() + r@.len() == n,
            n == base.len(),
            ids@ == publication_ids(base),
            publications@ == base.skip(r@.len() as int),
            identifier_groups@.len() == publications@.len(),
            contributor_groups@.len() == publications@.len(),
            holding_groups@.len() == publications@.len(),
            forall|q: int|
                0 <= q < publications@.len() ==> (#[trigger] identifier_groups@[q])@ == children_at(id_rows, ids@, q + r@.len()),
            forall|q: int|
                0 <= q < publications@.len() ==> (#[trigger] contributor_groups@[q])@
                    == children_at(credit_rows, ids@, q + r@.len()),
            forall|q: int|
                0 <= q < publications@.len() ==> (#[trigger] holding_groups@[q])@ == children_at(copy_rows, ids@, q + r@.len()),
            forall|p: int|
                0 <= p < r@.len() ==> {
                    &&& publication_fields(#[trigger] r@[p]) == publication_fields(base[p])
                    &&& r@[p].identifiers@ == children_at(id_rows, ids@, p)
                    &&& r@[p].contributors@ == children_at(credit_rows, ids@, p)
                    &&& r@[p].holdings@ == children_at(copy_rows, ids@, p)
                },
        decreases publications@.len(),
    {
        let ghost done = r@.len();
        let ghost ig = identifier_groups@;
        let ghost cg = contributor_groups@;
        let ghost hg = holding_groups@;
        assert(publications@[0] == base[done as int]);
        let p = publications.remove(0);
        let identifiers = identifier_groups.remove(0);
        let contributors = contributor_groups.remove(0);
        let holdings = holding_groups.remove(0);
        assert(ig[0]@ == children_at(id_rows, ids@, done as int));
        assert(cg[0]@ == children_at(credit_rows, ids@, done as int));
        assert(hg[0]@ == children_at(copy_rows, ids@, done as int));
        r.push(Publication { identifiers, contributors, holdings, ..p });
        assert(publications@ =~= base.skip(r@.len() as int));
        assert forall|q: int| 0 <= q < publications@.len() implies (#[trigger] identifier_groups@[q])@
            == children_at(id_rows, ids@, q + r@.len()) by {
            assert(identifier_groups@[q] == ig[q + 1]);
        }
        assert forall|q: int| 0 <= q < publications@.len() implies (
        #[trigger] contributor_groups@[q])@ == children_at(credit_rows, ids@, q + r@.len()) by {
            assert(contributor_groups@[q] == cg[q + 1]);
        }
        assert forall|q: int| 0 <= q < publications@.len() implies (#[trigger] holding_groups@[q])@
            == children_at(copy_rows, ids@, q + r@.len()) by {
            assert(holding_groups@[q] == hg[q + 1]);
        }
    }
    r
}

} // verus!
