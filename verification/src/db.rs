//! The catalog's rows as the library reads them back, and the rules the pages apply to them.

pub mod pending_import;
pub mod person;
pub mod publication;
pub mod work;

use vstd::prelude::*;

use crate::db::person::{Contributor, roles};
use crate::db::work::{lead_contributor, lead_of};
use crate::text::{is_empty, str_eq};

verus! {

/// The stored records no row names, in stored order: what saving the rows removes.
pub open spec fn unnamed(stored: Seq<i64>, named: Seq<Option<i64>>) -> Seq<i64>
    decreases stored.len(),
{
    if stored.len() == 0 {
        seq![]
    } else {
        let rest = unnamed(stored.drop_last(), named);
        if named.contains(Some(stored.last())) {
            rest
        } else {
            rest.push(stored.last())
        }
    }
}

/// The stored record a row edits: the one its id names, if it is one of the stored records. An id
/// naming no record of this parent cannot be trusted, so such a row is taken as a new record.
pub open spec fn edited(stored: Seq<i64>, id: Option<i64>) -> Option<i64> {
    match id {
        Some(i) => if stored.contains(i) {
            Some(i)
        } else {
            None
        },
        None => None,
    }
}

fn names(named: &[Option<i64>], id: i64) -> (r: bool)
    ensures
        r == named@.contains(Some(id)),
{
    let mut j: usize = 0;
    while j < named.len()
        invariant
            j <= named.len(),
            forall|k: int| 0 <= k < j ==> named@[k] != Some(id),
        decreases named.len() - j,
    {
        if named[j] == Some(id) {
            assert(named@[j as int] == Some(id));
            return true;
        }
        j = j + 1;
    }
    false
}

fn holds_id(stored: &[i64], id: i64) -> (r: bool)
    ensures
        r == stored@.contains(id),
{
    let mut j: usize = 0;
    while j < stored.len()
        invariant
            j <= stored.len(),
            forall|k: int| 0 <= k < j ==> stored@[k] != id,
        decreases stored.len() - j,
    {
        if stored[j] == id {
            assert(stored@[j as int] == id);
            return true;
        }
        j = j + 1;
    }
    false
}

/// How saving rows onto a parent's stored children goes: the stored children no row names are
/// removed, and each row edits the stored child its id names, or is added as a new one.
///
/// Returns the ids to remove, and per row the id it edits (None: add it).
pub fn reconcile(stored: &[i64], named: &[Option<i64>]) -> (r: (Vec<i64>, Vec<Option<i64>>))
    ensures
        r.0@ == unnamed(stored@, named@),
        r.1@ == named@.map_values(|id: Option<i64>| edited(stored@, id)),
{
    let mut removed: Vec<i64> = Vec::new();
    let mut i: usize = 0;
    while i < stored.len()
        invariant
            i <= stored.len(),
            removed@ == unnamed(stored@.take(i as int), named@),
        decreases stored.len() - i,
    {
        assert(stored@.take(i + 1).drop_last() =~= stored@.take(i as int));
        if !names(named, stored[i]) {
            removed.push(stored[i]);
        }
        i = i + 1;
    }
    assert(stored@.take(stored.len() as int) =~= stored@);
    let mut edits: Vec<Option<i64>> = Vec::new();
    let mut j: usize = 0;
    while j < named.len()
        invariant
            j <= named.len(),
            edits@.len() == j,
            forall|k: int| 0 <= k < j ==> #[trigger] edits@[k] == edited(stored@, named@[k]),
        decreases named.len() - j,
    {
        let e = match named[j] {
            Some(id) => if holds_id(stored, id) {
                Some(id)
            } else {
                None
            },
            None => None,
        };
        edits.push(e);
        j = j + 1;
    }
    assert(edits@ =~= named@.map_values(|id: Option<i64>| edited(stored@, id)));
    (removed, edits)
}

/// What saving a work row's one contributor does to the work's stored credits.
#[derive(Debug, Clone, Copy, PartialEq, Eq, Structural)]
pub enum LeadEdit {
    /// The row shows the credits as they are
    Keep,
    /// Point this credit, the lead, at the row's person and role, and drop any other credit that
    /// now duplicates it. The lead is edited rather than replaced, so it keeps its place in link
    /// order: that order is what picks the lead for a work with neither a composer nor an author.
    Edit(usize),
    /// The row cleared its contributor, so this credit, the lead, goes and the next becomes lead
    Remove(usize),
    /// The work credits nobody yet, so the row's contributor is added
    Add,
}

/// What saving a work row with this contributor does to credits in link order.
pub open spec fn lead_edit_of(contributors: Seq<Contributor>, name: Seq<char>, role: Seq<char>) -> LeadEdit {
    let lead = lead_of(roles(contributors));
    let unchanged = match lead {
        Some(i) => contributors[i].name@ == name && contributors[i].role@ == role,
        None => name.len() == 0,
    };
    if unchanged {
        LeadEdit::Keep
    } else {
        match lead {
            Some(i) => if name.len() > 0 {
                LeadEdit::Edit(i as usize)
            } else {
                LeadEdit::Remove(i as usize)
            },
            None => LeadEdit::Add,
        }
    }
}

/// What saving a work row with this contributor does to the work's credits, in link order.
pub fn lead_edit(contributors: &[Contributor], name: &str, role: &str) -> (r: LeadEdit)
    ensures
        r == lead_edit_of(contributors@, name@, role@),
{
    let lead = lead_contributor(contributors);
    proof {
        crate::db::work::lemma_lead_of(roles(contributors@));
        assert(roles(contributors@).len() == contributors@.len());
    }
    let unchanged = match lead {
        Some(i) => str_eq(contributors[i].name.as_str(), name) && str_eq(
            contributors[i].role.as_str(),
            role,
        ),
        None => is_empty(name),
    };
    if unchanged {
        return LeadEdit::Keep;
    }
    match lead {
        Some(i) => if !is_empty(name) {
            LeadEdit::Edit(i)
        } else {
            LeadEdit::Remove(i)
        },
        None => LeadEdit::Add,
    }
}


/// The children these rows give one parent, in row order.
pub open spec fn children_of<T>(rows: Seq<(i64, T)>, parent: i64) -> Seq<T>
    decreases rows.len(),
{
    if rows.len() == 0 {
        seq![]
    } else if rows[0].0 == parent {
        seq![rows[0].1] + children_of(rows.drop_first(), parent)
    } else {
        children_of(rows.drop_first(), parent)
    }
}

/// The parent at position `p` is the one its id's rows go to: the last parent with that id.
pub open spec fn takes_children(parents: Seq<i64>, p: int) -> bool {
    forall|k: int| p < k < parents.len() ==> #[trigger] parents[k] != parents[p]
}

/// The children the parent at position `p` gets: those its id's rows name, in row order, if no
/// later parent has the same id.
pub open spec fn children_at<T>(rows: Seq<(i64, T)>, parents: Seq<i64>, p: int) -> Seq<T> {
    if takes_children(parents, p) {
        children_of(rows, parents[p])
    } else {
        seq![]
    }
}

/// Hand each child row to its parent, keeping the rows' order within each parent: the children of
/// the parent at each position of `parents`. Each row names its parent by id, and every id a row
/// names is a parent's; where two parents share an id, the later one takes the rows.
pub fn group_by_parent<T>(parents: &Vec<i64>, rows: Vec<(i64, T)>) -> (r: Vec<Vec<T>>)
    requires
        forall|i: int| 0 <= i < rows@.len() ==> parents@.contains(#[trigger] rows@[i].0),
    ensures
        r@.len() == parents@.len(),
        forall|p: int|
            0 <= p < parents@.len() ==> (#[trigger] r@[p])@ == children_at(rows@, parents@, p),
{
    let ghost all = rows@;
    let mut groups: Vec<Vec<T>> = Vec::new();
    let mut p: usize = 0;
    while p < parents.len()
        invariant
            p <= parents.len(),
            groups@.len() == p,
            forall|q: int| 0 <= q < p ==> (#[trigger] groups@[q])@.len() == 0,
        decreases parents.len() - p,
    {
        groups.push(Vec::new());
        p = p + 1;
    }
    assert(all.skip(all.len() as int) =~= Seq::<(i64, T)>::empty());
    assert forall|q: int| 0 <= q < parents@.len() implies (#[trigger] groups@[q])@ == children_at(
        all.skip(all.len() as int),
        parents@,
        q,
    ) by {
        assert(groups@[q]@ =~= Seq::<T>::empty());
    }
    let mut rows = rows;
    // Taken from the end and put at the front of each group, so each group keeps row order
    while rows.len() > 0
        invariant
            rows@ == all.take(rows@.len() as int),
            rows@.len() <= all.len(),
            groups@.len() == parents@.len(),
            forall|i: int| 0 <= i < all.len() ==> parents@.contains(#[trigger] all[i].0),
            forall|q: int|
                0 <= q < parents@.len() ==> (#[trigger] groups@[q])@ == children_at(
                    all.skip(rows@.len() as int),
                    parents@,
                    q,
                ),
        decreases rows@.len(),
    {
        let n = rows.len();
        let ghost before = groups@;
        let ghost rest = all.skip(n as int);
        let ghost row = all[n - 1];
        assert(all.skip(n - 1).drop_first() =~= rest);
        assert(all.skip(n - 1)[0] == row);
        let (parent, child) = match rows.pop() {
            Some(row) => row,
            None => {
                return groups;
            },
        };
        assert(rows@ =~= all.take(n - 1));
        assert(parents@.contains(row.0));
        let k = last_index_of(parents, parent);
        let mut group = groups.remove(k);
        group.insert(0, child);
        groups.insert(k, group);
        assert forall|q: int| 0 <= q < parents@.len() implies (#[trigger] groups@[q])@
            == children_at(all.skip(n - 1), parents@, q) by {
            if q == k {
                assert(takes_children(parents@, q));
                assert(groups@[q]@ =~= seq![row.1] + before[q]@);
            } else {
                assert(groups@[q] == before[q]);
                if parents@[q] == parents@[k as int] && takes_children(parents@, q) {
                    if q < k {
                        assert(parents@[k as int] != parents@[q]);
                    }
                }
            }
        }
    }
    assert(all.take(0) =~= Seq::<(i64, T)>::empty());
    assert(all.skip(0) =~= all);
    groups
}

/// Where the last of some ids equal to `id` stands.
fn last_index_of(ids: &Vec<i64>, id: i64) -> (r: usize)
    requires
        ids@.contains(id),
    ensures
        r < ids@.len(),
        ids@[r as int] == id,
        takes_children(ids@, r as int),
{
    let mut i: usize = ids.len();
    while i > 0
        invariant
            i <= ids.len(),
            ids@.contains(id),
            forall|k: int| i <= k < ids@.len() ==> ids@[k] != id,
        decreases i,
    {
        if ids[i - 1] == id {
            return i - 1;
        }
        i = i - 1;
    }
    assert(false);
    0
}

} // verus!
