use vstd::prelude::*;

use crate::db::person::{Contributor, credits_with_role, roles, roles_of_person};
use crate::db::{children_at, group_by_parent};
use crate::text::str_eq;

verus! {

#[derive(Debug, PartialEq, Eq)]
pub struct Work {
    pub id: i64,
    pub library_id: i64,
    pub title: String,
    pub key: Option<String>,
    pub time_signature: Option<String>,
    pub instrumentation: Option<String>,
    pub catalog_numbers: Vec<String>,
    pub contributors: Vec<Contributor>,
}

impl Work {
    /// The contributors credited with `role`, for listings with one column per role.
    pub fn with_role(&self, role: &str) -> (r: Vec<&Contributor>)
        ensures
            r@.map_values(|c: &Contributor| *c) == credits_with_role(self.contributors@, role@),
    {
        let mut r: Vec<&Contributor> = Vec::new();
        let mut i: usize = 0;
        while i < self.contributors.len()
            invariant
                i <= self.contributors.len(),
                r@.map_values(|c: &Contributor| *c) == credits_with_role(
                    self.contributors@.take(i as int),
                    role@,
                ),
            decreases self.contributors.len() - i,
        {
            let ghost before = r@;
            assert(self.contributors@.take(i + 1).drop_last() =~= self.contributors@.take(i as int));
            if str_eq(self.contributors[i].role.as_str(), role) {
                r.push(&self.contributors[i]);
                assert(r@.map_values(|c: &Contributor| *c) =~= before.map_values(
                    |c: &Contributor| *c,
                ).push(self.contributors@[i as int]));
            }
            i = i + 1;
        }
        assert(self.contributors@.take(self.contributors.len() as int) =~= self.contributors@);
        r
    }

    /// The roles one person is credited with, for pages about that person.
    pub fn roles_of(&self, person_id: i64) -> (r: Vec<&str>)
        ensures
            r@.map_values(|s: &str| s@) == roles_of_person(self.contributors@, person_id),
    {
        crate::db::person::roles_of(&self.contributors, person_id)
    }
}

/// The first position holding `x`, if any.
pub open spec fn position_of(s: Seq<Seq<char>>, x: Seq<char>) -> Option<int>
    decreases s.len(),
{
    if s.len() == 0 {
        None
    } else if s[0] == x {
        Some(0)
    } else {
        match position_of(s.drop_first(), x) {
            Some(i) => Some(i + 1),
            None => None,
        }
    }
}

/// Which credit a one-line summary of a work shows and edits: its composer, else its author,
/// else the first credited.
pub open spec fn lead_of(roles: Seq<Seq<char>>) -> Option<int> {
    match position_of(roles, "composer"@) {
        Some(i) => Some(i),
        None => match position_of(roles, "author"@) {
            Some(i) => Some(i),
            None => if roles.len() > 0 {
                Some(0)
            } else {
                None
            },
        },
    }
}

/// `position_of` finds the first occurrence, and only an absent value has none.
pub proof fn lemma_position_of(s: Seq<Seq<char>>, x: Seq<char>)
    ensures
        position_of(s, x) matches Some(i) ==> 0 <= i < s.len() && s[i] == x && forall|j: int|
            0 <= j < i ==> s[j] != x,
        position_of(s, x) is None ==> forall|j: int| 0 <= j < s.len() ==> s[j] != x,
    decreases s.len(),
{
    if s.len() > 0 && s[0] != x {
        lemma_position_of(s.drop_first(), x);
        assert forall|j: int| 1 <= j < s.len() implies #[trigger] s[j] == s.drop_first()[j - 1] by {}
    }
}

/// The lead is a credit of the work, and a composer or an author when the work has one.
pub proof fn lemma_lead_of(roles: Seq<Seq<char>>)
    ensures
        lead_of(roles) is None <==> roles.len() == 0,
        lead_of(roles) matches Some(i) ==> 0 <= i < roles.len(),
        (exists|j: int| 0 <= j < roles.len() && roles[j] == "composer"@) ==> (lead_of(
            roles,
        ) matches Some(i) && roles[i] == "composer"@),
        (exists|j: int| 0 <= j < roles.len() && roles[j] == "author"@) && !(exists|j: int|
            0 <= j < roles.len() && roles[j] == "composer"@) ==> (lead_of(roles) matches Some(i)
            && roles[i] == "author"@),
{
    lemma_position_of(roles, "composer"@);
    lemma_position_of(roles, "author"@);
}

/// The first index at which `roles` holds `role`.
fn position_of_role(roles: &Vec<&str>, role: &str) -> (r: Option<usize>)
    ensures
        r matches Some(i) ==> position_of(roles@.map_values(|s: &str| s@), role@) == Some(i as int),
        r is None ==> position_of(roles@.map_values(|s: &str| s@), role@) is None,
{
    let ghost s = roles@.map_values(|s: &str| s@);
    let mut i: usize = 0;
    while i < roles.len()
        invariant
            i <= roles.len(),
            s == roles@.map_values(|s: &str| s@),
            forall|j: int| 0 <= j < i ==> s[j] != role@,
        decreases roles.len() - i,
    {
        if str_eq(roles[i], role) {
            proof {
                lemma_position_of(s, role@);
                assert(s[i as int] == role@);
            }
            return Some(i);
        }
        i = i + 1;
    }
    proof {
        lemma_position_of(s, role@);
    }
    None
}

/// Which of these roles a one-line summary leads with (see [lead_of]).
pub fn lead_in(roles: &Vec<&str>) -> (r: Option<usize>)
    ensures
        r matches Some(i) ==> lead_of(roles@.map_values(|s: &str| s@)) == Some(i as int),
        r is None ==> lead_of(roles@.map_values(|s: &str| s@)) is None,
{
    if let Some(i) = position_of_role(roles, "composer") {
        return Some(i);
    }
    if let Some(i) = position_of_role(roles, "author") {
        return Some(i);
    }
    if roles.len() > 0 {
        Some(0)
    } else {
        None
    }
}

/// Which contributor a one-line summary of the work shows and edits: its composer, else its
/// author, else the first credited. `contributors` must be in link order.
pub fn lead_contributor(contributors: &[Contributor]) -> (r: Option<usize>)
    ensures
        r matches Some(i) ==> lead_of(roles(contributors@)) == Some(i as int),
        r is None ==> lead_of(roles(contributors@)) is None,
{
    let mut names: Vec<&str> = Vec::new();
    let mut i: usize = 0;
    while i < contributors.len()
        invariant
            i <= contributors.len(),
            names.len() == i,
            forall|j: int| 0 <= j < i ==> (#[trigger] names@[j])@ == contributors@[j].role@,
        decreases contributors.len() - i,
    {
        names.push(contributors[i].role.as_str());
        i = i + 1;
    }
    assert(names@.map_values(|s: &str| s@) =~= roles(contributors@));
    lead_in(&names)
}

pub struct NewWork<'a> {
    pub library_id: i64,
    pub title: &'a str,
    pub key: Option<&'a str>,
    pub time_signature: Option<&'a str>,
    pub instrumentation: Option<&'a str>,
}


/// The ids of these works, in order.
pub open spec fn work_ids(works: Seq<Work>) -> Seq<i64> {
    works.map_values(|w: Work| w.id)
}

/// A work's own fields, apart from its children.
pub open spec fn work_fields(w: Work) -> (i64, i64, String, Option<String>, Option<String>, Option<String>) {
    (w.id, w.library_id, w.title, w.key, w.time_signature, w.instrumentation)
}

/// Works as read back with their children: every catalog number and credit row goes to the work
/// whose id it names, in row order. Every id a row names is a work's; where two works share an
/// id, the later one takes the rows.
pub fn assemble(
    works: Vec<Work>,
    catalog_numbers: Vec<(i64, String)>,
    contributors: Vec<(i64, Contributor)>,
) -> (r: Vec<Work>)
    requires
        forall|i: int|
            0 <= i < catalog_numbers@.len() ==> work_ids(works@).contains(
                #[trigger] catalog_numbers@[i].0,
            ),
        forall|i: int|
            0 <= i < contributors@.len() ==> work_ids(works@).contains(
                #[trigger] contributors@[i].0,
            ),
    ensures
        r@.len() == works@.len(),
        forall|p: int|
            0 <= p < r@.len() ==> {
                &&& work_fields(#[trigger] r@[p]) == work_fields(works@[p])
                &&& r@[p].catalog_numbers@ == children_at(catalog_numbers@, work_ids(works@), p)
                &&& r@[p].contributors@ == children_at(contributors@, work_ids(works@), p)
            },
{
    let ghost base = works@;
    let mut ids: Vec<i64> = Vec::new();
    let mut i: usize = 0;
    while i < works.len()
        invariant
            i <= works.len(),
            ids@ == work_ids(works@).take(i as int),
        decreases works.len() - i,
    {
        ids.push(works[i].id);
        assert(ids@ =~= work_ids(works@).take(i + 1));
        i = i + 1;
    }
    assert(ids@ =~= work_ids(works@));
    let ghost number_rows = catalog_numbers@;
    let ghost credit_rows = contributors@;
    let mut number_groups = group_by_parent(&ids, catalog_numbers);
    let mut credit_groups = group_by_parent(&ids, contributors);
    let mut works = works;
    let mut r: Vec<Work> = Vec::new();
    let n = works.len();
    while works.len() > 0
        invariant
            works@.len() + r@.len() == n,
            n == base.len(),
            ids@ == work_ids(base),
            works@ == base.skip(r@.len() as int),
            number_groups@.len() == works@.len(),
            credit_groups@.len() == works@.len(),
            forall|q: int|
                0 <= q < works@.len() ==> (#[trigger] number_groups@[q])@ == children_at(number_rows, ids@, q + r@.len()),
            forall|q: int|
                0 <= q < works@.len() ==> (#[trigger] credit_groups@[q])@ == children_at(credit_rows, ids@, q + r@.len()),
            forall|p: int|
                0 <= p < r@.len() ==> {
                    &&& work_fields(#[trigger] r@[p]) == work_fields(base[p])
                    &&& r@[p].catalog_numbers@ == children_at(number_rows, ids@, p)
                    &&& r@[p].contributors@ == children_at(credit_rows, ids@, p)
                },
        decreases works@.len(),
    {
        let ghost done = r@.len();
        let ghost ng = number_groups@;
        let ghost cg = credit_groups@;
        assert(works@[0] == base[done as int]);
        let w = works.remove(0);
        let catalog_numbers = number_groups.remove(0);
        let contributors = credit_groups.remove(0);
        assert(ng[0]@ == children_at(number_rows, ids@, done as int));
        assert(cg[0]@ == children_at(credit_rows, ids@, done as int));
        r.push(Work { catalog_numbers, contributors, ..w });
        assert(works@ =~= base.skip(r@.len() as int));
        assert forall|q: int| 0 <= q < works@.len() implies (#[trigger] number_groups@[q])@
            == children_at(number_rows, ids@, q + r@.len()) by {
            assert(number_groups@[q] == ng[q + 1]);
        }
        assert forall|q: int| 0 <= q < works@.len() implies (#[trigger] credit_groups@[q])@
            == children_at(credit_rows, ids@, q + r@.len()) by {
            assert(credit_groups@[q] == cg[q + 1]);
        }
    }
    r
}

} // verus!
