//! Imports under review: the form a pending import starts from, the unsaved draft of its review
//! page, and the rules that fold a submitted page into that draft.

use vstd::prelude::*;
use std::collections::HashMap;

use crate::db::pending_import::PendingImport;
use crate::db::work::{lead_in, lead_of};
use crate::identifier::{self, Kind, normalized};
use crate::publication_form::{
    self, ContributorRow, Errors, HoldingRow, IdentifierRow, PublicationForm, PublicationUpdate,
    WorkRow, msgs, opt_view, or_empty, work_messages,
};
use crate::text::{owned, str_eq, trim, trim_seq};
use crate::work_form::{WorkForm, WorkUpdate};

verus! {

broadcast use vstd::std_specs::hash::group_hash_axioms;

// ---------------------------------------------------------------------------------------------
// Seeding
// ---------------------------------------------------------------------------------------------

/// The identifier a query seeds the form with: a valid ISBN, else a valid ISMN.
pub open spec fn seeded_identifier(query: Seq<char>) -> Option<(Kind, Seq<char>)> {
    match normalized(Kind::Isbn, query) {
        Ok(v) => Some((Kind::Isbn, v)),
        Err(_) => match normalized(Kind::Ismn, query) {
            Ok(v) => Some((Kind::Ismn, v)),
            Err(_) => None,
        },
    }
}

impl PublicationForm {
    /// This is the form the pending import starts from.
    pub open spec fn seeded_from(self, pending: PendingImport) -> bool {
        &&& self.publisher@.len() == 0
        &&& self.year@.len() == 0
        &&& self.contributors@.len() == 0
        &&& self.works@.len() == 0
        &&& self.holdings@.len() == pending.holdings@.len()
        &&& forall|i: int|
            0 <= i < self.holdings@.len() ==> publication_form::holding_row_view(
                #[trigger] self.holdings@[i],
            ) == (None::<i64>, pending.holdings@[i].kind, or_empty(pending.holdings@[i].location))
        &&& match seeded_identifier(trim_seq(pending.query@)) {
            Some((kind, value)) => self.title@.len() == 0 && self.identifiers@.len() == 1
                && self.identifiers@[0].kind@ == kind.name() && self.identifiers@[0].value@ == value,
            None => self.title@ == trim_seq(pending.query@) && self.identifiers@.len() == 0,
        }
    }

    /// The form a pending import starts from before anything is saved: the holding as entered,
    /// and a valid ISBN or ISMN as the first identifier row, anything else as the title. Derived
    /// on every view rather than stored, so it survives a restart the same way the row does.
    pub fn seed(pending: &PendingImport) -> (r: Self)
        ensures
            r.seeded_from(*pending),
    {
        let query = trim(pending.query.as_str());
        let mut holdings: Vec<HoldingRow> = Vec::new();
        let mut i: usize = 0;
        while i < pending.holdings.len()
            invariant
                i <= pending.holdings.len(),
                holdings@.len() == i,
                forall|j: int|
                    0 <= j < i ==> publication_form::holding_row_view(#[trigger] holdings@[j]) == (
                        None::<i64>,
                        pending.holdings@[j].kind,
                        or_empty(pending.holdings@[j].location),
                    ),
            decreases pending.holdings.len() - i,
        {
            let h = &pending.holdings[i];
            let location = match &h.location {
                Some(l) => l.clone(),
                None => String::new(),
            };
            holdings.push(HoldingRow { id: None, kind: h.kind, location });
            i = i + 1;
        }
        let mut form = PublicationForm {
            title: String::new(),
            publisher: String::new(),
            year: String::new(),
            holdings,
            identifiers: Vec::new(),
            contributors: Vec::new(),
            works: Vec::new(),
        };
        if let Ok(normalized) = identifier::normalize(Kind::Isbn, query.as_str()) {
            form.identifiers.push(
                IdentifierRow {
                    kind: owned(Kind::Isbn.as_str()),
                    value: owned(normalized.as_str()),
                },
            );
            return form;
        }
        if let Ok(normalized) = identifier::normalize(Kind::Ismn, query.as_str()) {
            form.identifiers.push(
                IdentifierRow {
                    kind: owned(Kind::Ismn.as_str()),
                    value: owned(normalized.as_str()),
                },
            );
            return form;
        }
        form.title = query;
        form
    }
}

// ---------------------------------------------------------------------------------------------
// Leads
// ---------------------------------------------------------------------------------------------

/// A contributor row by its values, as (name, role).
pub open spec fn row_view(c: ContributorRow) -> (Seq<char>, Seq<char>) {
    (c.name@, c.role@)
}

pub open spec fn row_views(s: Seq<ContributorRow>) -> Seq<(Seq<char>, Seq<char>)> {
    s.map_values(|c: ContributorRow| row_view(c))
}

pub open spec fn role_views(s: Seq<(Seq<char>, Seq<char>)>) -> Seq<Seq<char>> {
    s.map_values(|v: (Seq<char>, Seq<char>)| v.1)
}

/// `s` without the credits equal to `row`, except the one at `i`.
pub open spec fn keep_lead(s: Seq<(Seq<char>, Seq<char>)>, i: int, row: (Seq<char>, Seq<char>)) -> Seq<
    (Seq<char>, Seq<char>),
>
    decreases s.len(),
{
    if s.len() == 0 {
        seq![]
    } else {
        let rest = keep_lead(s.drop_last(), i, row);
        if s.len() - 1 == i || s.last() != row {
            rest.push(s.last())
        } else {
            rest
        }
    }
}

/// The credits a work keeps once a row's one contributor is applied to its lead: an unchanged
/// lead stays put, a filled row replaces the lead in place and drops any other credit it now
/// duplicates, an emptied row removes the lead, and a work with no credits gains the row's.
pub open spec fn lead_set(cs: Seq<(Seq<char>, Seq<char>)>, row: (Seq<char>, Seq<char>)) -> Seq<
    (Seq<char>, Seq<char>),
> {
    let empty = row.0.len() == 0 && row.1.len() == 0;
    match lead_of(role_views(cs)) {
        Some(i) => if cs[i] == row {
            cs
        } else if !empty {
            keep_lead(cs.update(i, row), i, row)
        } else {
            cs.remove(i)
        },
        None => if !empty {
            cs.push(row)
        } else {
            cs
        },
    }
}

/// Which contributor row a one-line summary leads with.
pub fn lead_row(rows: &Vec<ContributorRow>) -> (r: Option<usize>)
    ensures
        r matches Some(i) ==> lead_of(role_views(row_views(rows@))) == Some(i as int),
        r is None ==> lead_of(role_views(row_views(rows@))) is None,
{
    let mut names: Vec<&str> = Vec::new();
    let mut i: usize = 0;
    while i < rows.len()
        invariant
            i <= rows.len(),
            names.len() == i,
            forall|j: int| 0 <= j < i ==> (#[trigger] names@[j])@ == rows@[j].role@,
        decreases rows.len() - i,
    {
        names.push(rows[i].role.as_str());
        i = i + 1;
    }
    assert(names@.map_values(|s: &str| s@) =~= role_views(row_views(rows@)));
    lead_in(&names)
}

fn same_row(a: &ContributorRow, b: &ContributorRow) -> (r: bool)
    ensures
        r == (row_view(*a) == row_view(*b)),
{
    str_eq(a.name.as_str(), b.name.as_str()) && str_eq(a.role.as_str(), b.role.as_str())
}

/// Apply a work row's one contributor to a draft work's, leaving the ones the row does not show
/// alone: an unchanged lead stays put, a filled row replaces the lead in place and drops any other
/// contributor it now duplicates, and an emptied row removes the lead.
///
/// A half-filled row is kept rather than dropped. A draft holds whatever was typed, and
/// validation is what tells the user about it.
pub fn set_lead(contributors: &mut Vec<ContributorRow>, row: &ContributorRow)
    ensures
        row_views(final(contributors)@) == lead_set(row_views(old(contributors)@), row_view(*row)),
{
    let ghost cs = row_views(contributors@);
    let ghost rv = row_view(*row);
    let empty = row.name.as_str().is_empty() && row.role.as_str().is_empty();
    proof {
        crate::db::work::lemma_lead_of(role_views(cs));
        assert(role_views(cs) =~= role_views(row_views(contributors@)));
    }
    match lead_row(contributors) {
        Some(i) => {
            if same_row(&contributors[i], row) {
            } else if !empty {
                // The lead is edited rather than replaced, so it keeps its place in the list: that
                // order is what picks the lead for a work with neither a composer nor an author.
                contributors.set(i, row.clone());
                let ghost updated = row_views(contributors@);
                assert(updated =~= cs.update(i as int, rv));
                // Another contributor the row now duplicates would credit the same person twice
                let mut kept: Vec<ContributorRow> = Vec::new();
                let mut j: usize = 0;
                while j < contributors.len()
                    invariant
                        j <= contributors.len(),
                        updated == row_views(contributors@),
                        rv == row_view(*row),
                        row_views(kept@) == keep_lead(updated.take(j as int), i as int, rv),
                    decreases contributors.len() - j,
                {
                    let ghost before = kept@;
                    assert(updated.take(j + 1).drop_last() =~= updated.take(j as int));
                    if j == i || !same_row(&contributors[j], row) {
                        kept.push(contributors[j].clone());
                        assert(row_views(kept@) =~= row_views(before).push(updated[j as int]));
                    }
                    j = j + 1;
                }
                assert(updated.take(contributors.len() as int) =~= updated);
                *contributors = kept;
            } else {
                contributors.remove(i);
                assert(row_views(contributors@) =~= cs.remove(i as int));
            }
        },
        None => {
            if !empty {
                contributors.push(row.clone());
                assert(row_views(contributors@) =~= cs.push(rv));
            }
        },
    }
}

// ---------------------------------------------------------------------------------------------
// Drafts
// ---------------------------------------------------------------------------------------------

const HIDDEN_WORK_PROBLEM: &'static str = "A contributor is incomplete. Open the work to fix it.";

pub open spec fn hidden_work_problem() -> Seq<char> {
    "A contributor is incomplete. Open the work to fix it."@
}

/// Unsaved review-page edits for one pending import.
///
/// The works carry everything the review page's rows do not show, so they are the draft's source
/// of truth: `form.works` is derived from them by [Draft::merge] and never edited directly.
pub struct Draft {
    pub form: PublicationForm,
    pub works: Vec<DraftWork>,
    /// Never reused, so a row left over from an earlier view cannot attach to a different work
    pub next_id: i64,
}

/// A work on a draft, with an id that means nothing outside the draft it belongs to.
pub struct DraftWork {
    pub id: i64,
    pub form: WorkForm,
}

impl Clone for DraftWork {
    fn clone(&self) -> (r: Self)
        ensures
            r.id == self.id,
            r.form.same(self.form),
    {
        DraftWork { id: self.id, form: self.form.clone() }
    }
}

/// A draft work by its values: (id, title, key, time signature, instrumentation, credits).
pub open spec fn work_view(w: DraftWork) -> (
    i64,
    Seq<char>,
    Seq<char>,
    Seq<char>,
    Seq<char>,
    Seq<(Seq<char>, Seq<char>)>,
) {
    (
        w.id,
        w.form.title@,
        w.form.key@,
        w.form.time_signature@,
        w.form.instrumentation@,
        row_views(w.form.contributors@),
    )
}

pub open spec fn work_views(s: Seq<DraftWork>) -> Seq<
    (i64, Seq<char>, Seq<char>, Seq<char>, Seq<char>, Seq<(Seq<char>, Seq<char>)>),
> {
    s.map_values(|w: DraftWork| work_view(w))
}

/// The first position of the work with this id, if any.
pub open spec fn position_of_id(
    pool: Seq<(i64, Seq<char>, Seq<char>, Seq<char>, Seq<char>, Seq<(Seq<char>, Seq<char>)>)>,
    id: i64,
) -> Option<int>
    decreases pool.len(),
{
    if pool.len() == 0 {
        None
    } else if pool[0].0 == id {
        Some(0)
    } else {
        match position_of_id(pool.drop_first(), id) {
            Some(i) => Some(i + 1),
            None => None,
        }
    }
}

/// The works a draft holds once these rows are folded in, in row order, and the next id: a row
/// naming one of `pool` takes it over, sets its title and applies its contributor to the lead;
/// any other row adds a work with the next id; works no row names are dropped.
pub open spec fn merge_rows(
    rows: Seq<WorkRow>,
    pool: Seq<(i64, Seq<char>, Seq<char>, Seq<char>, Seq<char>, Seq<(Seq<char>, Seq<char>)>)>,
    next: int,
) -> (Seq<(i64, Seq<char>, Seq<char>, Seq<char>, Seq<char>, Seq<(Seq<char>, Seq<char>)>)>, int)
    decreases rows.len(),
{
    if rows.len() == 0 {
        (seq![], next)
    } else {
        let row = rows[0];
        let rc = row_view(row.contributor);
        let found = match row.id {
            Some(id) => position_of_id(pool, id),
            None => None,
        };
        match found {
            Some(k) => {
                let w = pool[k];
                let (rest, n) = merge_rows(rows.drop_first(), pool.remove(k), next);
                (seq![(w.0, row.title@, w.2, w.3, w.4, lead_set(w.5, rc))] + rest, n)
            },
            None => {
                let (rest, n) = merge_rows(rows.drop_first(), pool, next + 1);
                (
                    seq![
                        (
                            next as i64,
                            row.title@,
                            Seq::<char>::empty(),
                            Seq::<char>::empty(),
                            Seq::<char>::empty(),
                            lead_set(seq![], rc),
                        ),
                    ] + rest,
                    n,
                )
            },
        }
    }
}

/// The row the review page shows for a draft work: its id and title, and its lead credit.
pub open spec fn draft_row(
    w: (i64, Seq<char>, Seq<char>, Seq<char>, Seq<char>, Seq<(Seq<char>, Seq<char>)>),
) -> (Option<i64>, Seq<char>, Seq<char>, Seq<char>) {
    match lead_of(role_views(w.5)) {
        Some(i) => (Some(w.0), w.1, w.5[i].0, w.5[i].1),
        None => (Some(w.0), w.1, seq![], seq![]),
    }
}

fn find_work(works: &Vec<DraftWork>, id: i64) -> (r: Option<usize>)
    ensures
        r matches Some(k) ==> position_of_id(work_views(works@), id) == Some(k as int),
        r is None ==> position_of_id(work_views(works@), id) is None,
{
    let ghost pool = work_views(works@);
    let mut k: usize = 0;
    while k < works.len()
        invariant
            k <= works.len(),
            pool == work_views(works@),
            forall|j: int| 0 <= j < k ==> (#[trigger] pool[j]).0 != id,
        decreases works.len() - k,
    {
        if works[k].id == id {
            proof {
                lemma_position_of_id(pool, id);
                assert(pool[k as int].0 == id);
            }
            return Some(k);
        }
        k = k + 1;
    }
    proof {
        lemma_position_of_id(pool, id);
    }
    None
}

pub proof fn lemma_position_of_id(
    pool: Seq<(i64, Seq<char>, Seq<char>, Seq<char>, Seq<char>, Seq<(Seq<char>, Seq<char>)>)>,
    id: i64,
)
    ensures
        position_of_id(pool, id) matches Some(i) ==> 0 <= i < pool.len() && pool[i].0 == id
            && forall|j: int| 0 <= j < i ==> (#[trigger] pool[j]).0 != id,
        position_of_id(pool, id) is None ==> forall|j: int|
            0 <= j < pool.len() ==> (#[trigger] pool[j]).0 != id,
    decreases pool.len(),
{
    if pool.len() > 0 && pool[0].0 != id {
        lemma_position_of_id(pool.drop_first(), id);
        assert forall|j: int| 1 <= j < pool.len() implies #[trigger] pool[j] == pool.drop_first()[j
            - 1] by {}
    }
}

impl Draft {
    /// The draft a pending import starts from, before anything is saved: the seeded form and no
    /// works, since nothing has named one yet.
    pub fn seed(pending: &PendingImport) -> (r: Self)
        ensures
            r.form.seeded_from(*pending),
            r.works@.len() == 0,
            r.next_id == 1,
    {
        Draft { form: PublicationForm::seed(pending), works: Vec::new(), next_id: 1 }
    }

    /// Fold a submitted form into the draft, so its works keep what the page's rows do not show.
    ///
    /// A row naming a draft work keeps it and sets its title, and edits its lead contributor only
    /// (see [set_lead]). A row with no id, or an id the draft does not have, adds a work whose only
    /// contributor is the row's. Works no row names are dropped. The works end up in row order.
    pub fn merge(&mut self, submitted: PublicationForm)
        requires
            old(self).next_id as int + submitted.works@.len() <= i64::MAX,
        ensures
            work_views(final(self).works@) == merge_rows(
                submitted.works@,
                work_views(old(self).works@),
                old(self).next_id as int,
            ).0,
            final(self).next_id as int == merge_rows(
                submitted.works@,
                work_views(old(self).works@),
                old(self).next_id as int,
            ).1,
            final(self).form.title == submitted.title,
            final(self).form.publisher == submitted.publisher,
            final(self).form.year == submitted.year,
            final(self).form.holdings == submitted.holdings,
            final(self).form.identifiers == submitted.identifiers,
            final(self).form.contributors == submitted.contributors,
            final(self).form.works@.len() == final(self).works@.len(),
            forall|i: int|
                0 <= i < final(self).form.works@.len() ==> publication_form::work_row_view(
                    #[trigger] final(self).form.works@[i],
                ) == draft_row(work_view(final(self).works@[i])),
    {
        let ghost rows = submitted.works@;
        let ghost pool0 = work_views(self.works@);
        let ghost next0 = self.next_id as int;
        let mut works: Vec<DraftWork> = Vec::new();
        let mut i: usize = 0;
        assert(rows.skip(0) =~= rows);
        while i < submitted.works.len()
            invariant
                rows == submitted.works@,
                i <= rows.len(),
                self.next_id + (rows.len() - i) <= i64::MAX,
                merge_rows(rows, pool0, next0) == (
                    work_views(works@) + merge_rows(
                        rows.skip(i as int),
                        work_views(self.works@),
                        self.next_id as int,
                    ).0,
                    merge_rows(rows.skip(i as int), work_views(self.works@), self.next_id as int).1,
                ),
            decreases rows.len() - i,
        {
            let row = &submitted.works[i];
            let ghost pool = work_views(self.works@);
            let ghost before = work_views(works@);
            let ghost next_before = self.next_id as int;
            assert(rows.skip(i as int)[0] == rows[i as int]);
            assert(rows.skip(i as int).drop_first() =~= rows.skip(i + 1));
            // An id the draft does not have names nothing this form may edit
            let existing = match row.id {
                Some(id) => find_work(&self.works, id),
                None => None,
            };
            let ghost rc = row_view(row.contributor);
            let ghost tail = rows.skip(i as int);
            proof {
                if let Some(id) = row.id {
                    lemma_position_of_id(pool, id);
                }
            }
            match existing {
                Some(k) => {
                    let mut work = self.works.remove(k);
                    let ghost w = pool[k as int];
                    assert(work_view(work) == w);
                    assert(work_views(self.works@) =~= pool.remove(k as int));
                    work.form.title = row.title.clone();
                    set_lead(&mut work.form.contributors, &row.contributor);
                    assert(work_view(work) == (w.0, row.title@, w.2, w.3, w.4, lead_set(w.5, rc)));
                    works.push(work);
                    assert(work_views(works@) =~= before.push(work_view(works@[works.len() - 1])));
                    proof {
                        let (rest, n) = merge_rows(tail.drop_first(), pool.remove(k as int), next_before);
                        assert(merge_rows(tail, pool, next_before) == (
                            seq![(w.0, row.title@, w.2, w.3, w.4, lead_set(w.5, rc))] + rest,
                            n,
                        ));
                        assert(work_views(works@) + rest =~= before + merge_rows(tail, pool, next_before).0);
                    }
                },
                None => {
                    let mut form = WorkForm::default();
                    form.title = row.title.clone();
                    set_lead(&mut form.contributors, &row.contributor);
                    proof {
                        assert(row_views(Seq::<ContributorRow>::empty()) =~= Seq::<
                            (Seq<char>, Seq<char>),
                        >::empty());
                    }
                    let ghost fresh = (
                        self.next_id,
                        row.title@,
                        Seq::<char>::empty(),
                        Seq::<char>::empty(),
                        Seq::<char>::empty(),
                        lead_set(seq![], rc),
                    );
                    works.push(DraftWork { id: self.next_id, form });
                    assert(work_view(works@[works.len() - 1]) == fresh);
                    assert(work_views(works@) =~= before.push(fresh));
                    self.next_id = self.next_id + 1;
                    proof {
                        let (rest, n) = merge_rows(tail.drop_first(), pool, next_before + 1);
                        assert(merge_rows(tail, pool, next_before) == (seq![fresh] + rest, n));
                        assert(work_views(works@) + rest =~= before + merge_rows(tail, pool, next_before).0);
                    }
                },
            }
            i = i + 1;
        }
        assert(rows.skip(rows.len() as int) =~= Seq::<WorkRow>::empty());
        assert(work_views(works@) =~= merge_rows(rows, pool0, next0).0);
        self.works = works;
        let rows = self.work_rows();
        self.form = PublicationForm { works: rows, ..submitted };
    }

    /// The review page's work rows, as the draft's works see them: one row per work, showing the
    /// contributor [crate::db::work::lead_contributor] picks.
    pub fn work_rows(&self) -> (r: Vec<WorkRow>)
        ensures
            r@.len() == self.works@.len(),
            forall|i: int|
                0 <= i < r@.len() ==> publication_form::work_row_view(#[trigger] r@[i]) == draft_row(
                    work_view(self.works@[i]),
                ),
    {
        let mut rows: Vec<WorkRow> = Vec::new();
        let mut i: usize = 0;
        while i < self.works.len()
            invariant
                i <= self.works.len(),
                rows@.len() == i,
                forall|j: int|
                    0 <= j < i ==> publication_form::work_row_view(#[trigger] rows@[j]) == draft_row(
                        work_view(self.works@[j]),
                    ),
            decreases self.works.len() - i,
        {
            let work = &self.works[i];
            let contributors = &work.form.contributors;
            proof {
                crate::db::work::lemma_lead_of(role_views(row_views(contributors@)));
            }
            let contributor = match lead_row(contributors) {
                Some(k) => contributors[k].clone(),
                None => ContributorRow::default(),
            };
            rows.push(WorkRow { id: Some(work.id), title: work.form.title.clone(), contributor });
            i = i + 1;
        }
        rows
    }
}

} // verus!

verus! {

/// The message each draft work's row gets for a problem the row itself does not show.
pub open spec fn hidden_messages(works: Seq<DraftWork>) -> Seq<Option<Seq<char>>> {
    Seq::new(
        works.len(),
        |i: int|
            if works[i].form.acceptable() {
                None
            } else {
                Some(hidden_work_problem())
            },
    )
}

/// The row messages a refused submit shows: a row's own message, else the one its work earned.
pub open spec fn merge_messages(base: Seq<Option<Seq<char>>>, hidden: Seq<Option<Seq<char>>>) -> Seq<
    Option<Seq<char>>,
> {
    Seq::new(
        if base.len() >= hidden.len() {
            base.len()
        } else {
            hidden.len()
        },
        |i: int|
            if i < base.len() && base[i] is Some {
                base[i]
            } else if i < hidden.len() {
                hidden[i]
            } else {
                None
            },
    )
}

impl Clone for Draft {
    fn clone(&self) -> (r: Self)
        ensures
            r.same(*self),
    {
        let mut works: Vec<DraftWork> = Vec::new();
        let mut i: usize = 0;
        while i < self.works.len()
            invariant
                i <= self.works.len(),
                work_views(works@) == work_views(self.works@.take(i as int)),
            decreases self.works.len() - i,
        {
            let w = self.works[i].clone();
            let ghost before = works@;
            works.push(w);
            assert(work_views(works@) =~= work_views(before).push(work_view(self.works@[i as int])));
            assert(work_views(self.works@.take(i + 1)) =~= work_views(self.works@.take(i as int)).push(
                work_view(self.works@[i as int]),
            ));
            i = i + 1;
        }
        assert(self.works@.take(self.works.len() as int) =~= self.works@);
        Draft { form: self.form.clone(), works, next_id: self.next_id }
    }
}

impl Draft {
    /// The two drafts hold the same values.
    pub open spec fn same(self, other: Draft) -> bool {
        &&& self.form.same(other.form)
        &&& work_views(self.works@) == work_views(other.works@)
        &&& self.next_id == other.next_id
    }

    /// Every work of the draft passes the work form's rules.
    pub open spec fn works_acceptable(self) -> bool {
        forall|i: int| 0 <= i < self.works@.len() ==> (#[trigger] self.works@[i]).form.acceptable()
    }

    /// Check the publication form and every work.
    ///
    /// A work whose problem the review page's row does not show gets a message on that row, so a
    /// refused submit is always explainable from the page it was refused on. A row with a problem
    /// of its own keeps its own message, which names a field the user can see.
    pub fn parse(&self) -> (r: Result<(PublicationUpdate, Vec<WorkUpdate>), Errors>)
        ensures
            r is Ok <==> self.form.acceptable() && self.works_acceptable(),
            r matches Ok((p, us)) ==> self.form.became(p) && us@.len() == self.works@.len() && (
            forall|i: int|
                0 <= i < us@.len() ==> self.works@[i].form.became(#[trigger] us@[i])),
            r matches Err(e) ==> if self.form.acceptable() {
                &&& e.title is None
                &&& e.year is None
                &&& e.holdings@.len() == 0
                &&& e.no_holdings is None
                &&& e.identifiers@.len() == 0
                &&& e.contributors@.len() == 0
                &&& msgs(e.works@) == merge_messages(seq![], hidden_messages(self.works@))
            } else {
                &&& opt_view(e.title) == self.form.title_message()
                &&& opt_view(e.year) == self.form.year_message()
                &&& msgs(e.holdings@) == publication_form::holding_messages(self.form.holdings@)
                &&& opt_view(e.no_holdings) == publication_form::no_holdings_message(
                    self.form.holdings@,
                )
                &&& msgs(e.identifiers@) == publication_form::identifier_messages(
                    self.form.identifiers@,
                )
                &&& msgs(e.contributors@) == publication_form::contributor_messages(
                    self.form.contributors@,
                )
                &&& msgs(e.works@) == merge_messages(
                    work_messages(self.form.works@),
                    hidden_messages(self.works@),
                )
            },
    {
        let mut updates: Vec<WorkUpdate> = Vec::new();
        let mut hidden: Vec<Option<String>> = Vec::new();
        let mut refused = false;
        let mut i: usize = 0;
        while i < self.works.len()
            invariant
                i <= self.works.len(),
                hidden@.len() == i,
                msgs(hidden@) == hidden_messages(self.works@).take(i as int),
                refused <==> exists|j: int| 0 <= j < i && !(#[trigger] self.works@[j]).form.acceptable(),
                !refused ==> updates@.len() == i && forall|j: int|
                    0 <= j < i ==> self.works@[j].form.became(#[trigger] updates@[j]),
            decreases self.works.len() - i,
        {
            let ghost before = hidden@;
            match self.works[i].form.parse() {
                Ok(update) => {
                    updates.push(update);
                    hidden.push(None);
                },
                Err(_) => {
                    hidden.push(Some(owned(HIDDEN_WORK_PROBLEM)));
                    refused = true;
                },
            }
            assert(msgs(hidden@) =~= hidden_messages(self.works@).take(i + 1));
            i = i + 1;
        }
        assert(hidden_messages(self.works@).take(self.works.len() as int) =~= hidden_messages(
            self.works@,
        ));
        let parsed = self.form.parse();
        if !refused {
            if let Ok(publication) = parsed {
                return Ok((publication, updates));
            }
        }
        let mut errors = match parsed {
            Err(errors) => errors,
            Ok(_) => Errors::default(),
        };
        let mut slots: Vec<Option<String>> = Vec::new();
        std::mem::swap(&mut slots, &mut errors.works);
        let ghost base = msgs(slots@);
        let ghost most = if base.len() >= hidden@.len() {
            base.len()
        } else {
            hidden@.len()
        };
        while slots.len() < hidden.len()
            invariant
                msgs(slots@).take(base.len() as int) == base,
                slots@.len() >= base.len(),
                slots@.len() <= most,
                most == (if base.len() >= hidden@.len() {
                    base.len()
                } else {
                    hidden@.len()
                }),
                forall|j: int| base.len() <= j < slots@.len() ==> (#[trigger] slots@[j]) is None,
            decreases hidden.len() - slots.len(),
        {
            let ghost w = slots@;
            slots.push(None);
            assert(msgs(slots@).take(base.len() as int) =~= msgs(w).take(base.len() as int));
        }
        assert forall|j: int| 0 <= j < base.len() implies base[j] == opt_view(#[trigger] slots@[j]) by {
            assert(msgs(slots@).take(base.len() as int)[j] == opt_view(slots@[j]));
        }
        let mut i: usize = 0;
        while i < hidden.len()
            invariant
                i <= hidden.len(),
                slots@.len() == most,
                most == (if base.len() >= hidden@.len() {
                    base.len()
                } else {
                    hidden@.len()
                }),
                forall|j: int|
                    0 <= j < slots@.len() ==> opt_view(#[trigger] slots@[j]) == if j < i {
                        merge_messages(base, msgs(hidden@))[j]
                    } else if j < base.len() {
                        base[j]
                    } else {
                        None
                    },
            decreases hidden.len() - i,
        {
            if slots[i].is_none() {
                let message = match &hidden[i] {
                    Some(m) => Some(m.clone()),
                    None => None,
                };
                slots.set(i, message);
            }
            i = i + 1;
        }
        assert(msgs(slots@) =~= merge_messages(base, msgs(hidden@)));
        errors.works = slots;
        Err(errors)
    }
}

/// Unsaved review-page edits, by pending import id
pub struct DraftStore {
    drafts: HashMap<i64, Draft>,
}

impl View for DraftStore {
    type V = Map<i64, Draft>;

    closed spec fn view(&self) -> Map<i64, Draft> {
        self.drafts@
    }
}

impl Default for DraftStore {
    fn default() -> (r: Self)
        ensures
            r@ == Map::<i64, Draft>::empty(),
    {
        DraftStore { drafts: HashMap::new() }
    }
}

impl DraftStore {
    pub fn get(&self, pending_id: i64) -> (r: Option<Draft>)
        ensures
            match r {
                Some(d) => self@.contains_key(pending_id) && d.same(self@[pending_id]),
                None => !self@.contains_key(pending_id),
            },
    {
        match self.drafts.get(&pending_id) {
            Some(d) => Some(d.clone()),
            None => None,
        }
    }

    pub fn save(&mut self, pending_id: i64, draft: Draft)
        ensures
            final(self)@ == old(self)@.insert(pending_id, draft),
    {
        self.drafts.insert(pending_id, draft);
    }

    pub fn remove(&mut self, pending_id: i64)
        ensures
            final(self)@ == old(self)@.remove(pending_id),
    {
        self.drafts.remove(&pending_id);
    }
}


// ---------------------------------------------------------------------------------------------
// Draft work ids
// ---------------------------------------------------------------------------------------------

/// Every work id is below the next id to hand out, and no two works share one.
pub open spec fn ids_fresh(
    pool: Seq<(i64, Seq<char>, Seq<char>, Seq<char>, Seq<char>, Seq<(Seq<char>, Seq<char>)>)>,
    next: int,
) -> bool {
    &&& forall|i: int| 0 <= i < pool.len() ==> (#[trigger] pool[i]).0 < next
    &&& forall|i: int, j: int| 0 <= i < j < pool.len() ==> (#[trigger] pool[i]).0 != (#[trigger] pool[j]).0
}

impl Draft {
    /// The draft's work ids are unique and never reach the next id, so a new work cannot take an
    /// id a row still names.
    pub open spec fn ids_unique(self) -> bool {
        ids_fresh(work_views(self.works@), self.next_id as int)
    }
}

proof fn lemma_merge_rows_ids(
    rows: Seq<WorkRow>,
    pool: Seq<(i64, Seq<char>, Seq<char>, Seq<char>, Seq<char>, Seq<(Seq<char>, Seq<char>)>)>,
    next: int,
)
    requires
        ids_fresh(pool, next),
        i64::MIN <= next,
        next + rows.len() <= i64::MAX,
    ensures
        merge_rows(rows, pool, next).1 >= next,
        forall|i: int|
            0 <= i < merge_rows(rows, pool, next).0.len() ==> {
                let id = (#[trigger] merge_rows(rows, pool, next).0[i]).0;
                (exists|k: int| 0 <= k < pool.len() && pool[k].0 == id) || (next <= id
                    < merge_rows(rows, pool, next).1)
            },
        forall|i: int, j: int|
            0 <= i < j < merge_rows(rows, pool, next).0.len() ==> (#[trigger] merge_rows(
                rows,
                pool,
                next,
            ).0[i]).0 != (#[trigger] merge_rows(rows, pool, next).0[j]).0,
    decreases rows.len(),
{
    if rows.len() > 0 {
        let row = rows[0];
        let rc = row_view(row.contributor);
        let found = match row.id {
            Some(id) => position_of_id(pool, id),
            None => None,
        };
        if let Some(id) = row.id {
            lemma_position_of_id(pool, id);
        }
        let (res, n) = merge_rows(rows, pool, next);
        match found {
            Some(k) => {
                let w = pool[k];
                let rest_pool = pool.remove(k);
                assert forall|i: int, j: int| 0 <= i < j < rest_pool.len() implies (
                #[trigger] rest_pool[i]).0 != (#[trigger] rest_pool[j]).0 by {
                    let a = if i < k { i } else { i + 1 };
                    let b = if j < k { j } else { j + 1 };
                    assert(rest_pool[i] == pool[a]);
                    assert(rest_pool[j] == pool[b]);
                }
                assert forall|i: int| 0 <= i < rest_pool.len() implies (#[trigger] rest_pool[i]).0
                    < next by {
                    let a = if i < k { i } else { i + 1 };
                    assert(rest_pool[i] == pool[a]);
                }
                lemma_merge_rows_ids(rows.drop_first(), rest_pool, next);
                let (rest, n2) = merge_rows(rows.drop_first(), rest_pool, next);
                let head = (w.0, row.title@, w.2, w.3, w.4, lead_set(w.5, rc));
                assert(res == seq![head] + rest);
                assert(n == n2);
                assert forall|i: int| 0 <= i < res.len() implies {
                    let id = (#[trigger] res[i]).0;
                    (exists|m: int| 0 <= m < pool.len() && pool[m].0 == id) || (next <= id < n)
                } by {
                    if i == 0 {
                        assert(pool[k].0 == res[0].0);
                    } else {
                        assert(res[i] == rest[i - 1]);
                        let id = rest[i - 1].0;
                        if exists|m: int| 0 <= m < rest_pool.len() && rest_pool[m].0 == id {
                            let m = choose|m: int| 0 <= m < rest_pool.len() && rest_pool[m].0 == id;
                            let a = if m < k { m } else { m + 1 };
                            assert(rest_pool[m] == pool[a]);
                        }
                    }
                }
                assert forall|i: int, j: int| 0 <= i < j < res.len() implies (#[trigger] res[i]).0
                    != (#[trigger] res[j]).0 by {
                    assert(res[j] == rest[j - 1]);
                    if i == 0 {
                        let id = rest[j - 1].0;
                        assert(res[0].0 == w.0);
                        if exists|m: int| 0 <= m < rest_pool.len() && rest_pool[m].0 == id {
                            let m = choose|m: int| 0 <= m < rest_pool.len() && rest_pool[m].0 == id;
                            let a = if m < k { m } else { m + 1 };
                            assert(rest_pool[m] == pool[a]);
                            assert(a != k);
                            if a < k {
                                assert(pool[a].0 != pool[k].0);
                            } else {
                                assert(pool[k].0 != pool[a].0);
                            }
                        } else {
                            assert(pool[k].0 < next);
                        }
                    } else {
                        assert(res[i] == rest[i - 1]);
                    }
                }
            },
            None => {
                assert((next as i64) as int == next);
                lemma_merge_rows_ids(rows.drop_first(), pool, next + 1);
                let (rest, n2) = merge_rows(rows.drop_first(), pool, next + 1);
                let head = (
                    next as i64,
                    row.title@,
                    Seq::<char>::empty(),
                    Seq::<char>::empty(),
                    Seq::<char>::empty(),
                    lead_set(seq![], rc),
                );
                assert(res == seq![head] + rest);
                assert(n == n2);
                assert forall|i: int| 0 <= i < res.len() implies {
                    let id = (#[trigger] res[i]).0;
                    (exists|m: int| 0 <= m < pool.len() && pool[m].0 == id) || (next <= id < n)
                } by {
                    if i > 0 {
                        assert(res[i] == rest[i - 1]);
                    }
                }
                assert forall|i: int, j: int| 0 <= i < j < res.len() implies (#[trigger] res[i]).0
                    != (#[trigger] res[j]).0 by {
                    assert(res[j] == rest[j - 1]);
                    if i == 0 {
                        let id = rest[j - 1].0;
                        if exists|m: int| 0 <= m < pool.len() && pool[m].0 == id {
                            let m = choose|m: int| 0 <= m < pool.len() && pool[m].0 == id;
                            assert(pool[m].0 < next);
                        }
                    } else {
                        assert(res[i] == rest[i - 1]);
                    }
                }
            },
        }
    }
}

/// Folding a submitted form into a draft keeps its work ids unique and below the next id: a
/// work the rows keep has its old id, and a new work takes an id no work has had.
pub proof fn lemma_merge_keeps_ids_unique(
    rows: Seq<WorkRow>,
    pool: Seq<(i64, Seq<char>, Seq<char>, Seq<char>, Seq<char>, Seq<(Seq<char>, Seq<char>)>)>,
    next: int,
)
    requires
        ids_fresh(pool, next),
        i64::MIN <= next,
        next + rows.len() <= i64::MAX,
    ensures
        ids_fresh(merge_rows(rows, pool, next).0, merge_rows(rows, pool, next).1),
        merge_rows(rows, pool, next).1 >= next,
{
    lemma_merge_rows_ids(rows, pool, next);
    let (res, n) = merge_rows(rows, pool, next);
    assert forall|i: int| 0 <= i < res.len() implies (#[trigger] res[i]).0 < n by {
        let id = res[i].0;
        if exists|m: int| 0 <= m < pool.len() && pool[m].0 == id {
            let m = choose|m: int| 0 <= m < pool.len() && pool[m].0 == id;
            assert(pool[m].0 < next);
        }
    }
}

/// A freshly seeded draft has no works, so its ids are trivially unique.
pub proof fn lemma_seeded_ids_unique(draft: Draft)
    requires
        draft.works@.len() == 0,
    ensures
        draft.ids_unique(),
{
}

/// What a draft store gives back for an import is the draft last saved for it, saving for one
/// import leaves every other alone, and a removed draft is gone.
pub proof fn lemma_store_reads_back(store: Map<i64, Draft>, id: i64, other: i64, draft: Draft)
    ensures
        store.insert(id, draft).contains_key(id),
        store.insert(id, draft)[id] == draft,
        other != id ==> store.insert(id, draft).contains_key(other) == store.contains_key(other),
        other != id && store.contains_key(other) ==> store.insert(id, draft)[other] == store[other],
        !store.remove(id).contains_key(id),
        other != id ==> store.remove(id).contains_key(other) == store.contains_key(other),
{
}

} // verus!
