use vstd::prelude::*;

verus! {

/// A person credited on a publication or work, as read back.
#[derive(Debug, PartialEq, Eq)]
pub struct Contributor {
    pub person_id: i64,
    pub name: String,
    pub role: String,
}

impl Clone for Contributor {
    fn clone(&self) -> (r: Self)
        ensures
            r == *self,
    {
        Contributor { person_id: self.person_id, name: self.name.clone(), role: self.role.clone() }
    }
}

/// The roles of a list of credits, in order.
pub open spec fn roles(contributors: Seq<Contributor>) -> Seq<Seq<char>> {
    contributors.map_values(|c: Contributor| c.role@)
}

/// The roles credited to one person, in credit order.
pub open spec fn roles_of_person(contributors: Seq<Contributor>, person_id: i64) -> Seq<Seq<char>>
    decreases contributors.len(),
{
    if contributors.len() == 0 {
        seq![]
    } else {
        let rest = roles_of_person(contributors.drop_last(), person_id);
        if contributors.last().person_id == person_id {
            rest.push(contributors.last().role@)
        } else {
            rest
        }
    }
}

/// The credits with one role, in credit order.
pub open spec fn credits_with_role(contributors: Seq<Contributor>, role: Seq<char>) -> Seq<
    Contributor,
>
    decreases contributors.len(),
{
    if contributors.len() == 0 {
        seq![]
    } else {
        let rest = credits_with_role(contributors.drop_last(), role);
        if contributors.last().role@ == role {
            rest.push(contributors.last())
        } else {
            rest
        }
    }
}

/// The roles one person is credited with.
pub fn roles_of(contributors: &Vec<Contributor>, person_id: i64) -> (r: Vec<&str>)
    ensures
        r@.map_values(|s: &str| s@) == roles_of_person(contributors@, person_id),
{
    let mut r: Vec<&str> = Vec::new();
    let mut i: usize = 0;
    while i < contributors.len()
        invariant
            i <= contributors.len(),
            r@.map_values(|s: &str| s@) == roles_of_person(contributors@.take(i as int), person_id),
        decreases contributors.len() - i,
    {
        let ghost before = r@;
        assert(contributors@.take(i + 1).drop_last() =~= contributors@.take(i as int));
        if contributors[i].person_id == person_id {
            r.push(contributors[i].role.as_str());
            assert(r@.map_values(|s: &str| s@) =~= before.map_values(|s: &str| s@).push(
                contributors@[i as int].role@,
            ));
        }
        i = i + 1;
    }
    assert(contributors@.take(contributors.len() as int) =~= contributors@);
    r
}

} // verus!
