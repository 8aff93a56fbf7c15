//! A submitted publication form, as the review page and the publication edit page post it.

use vstd::prelude::*;

use crate::db::publication::HoldingKind;
use crate::db::work::{lead_in, lead_of};
use crate::import::{lead_set, role_views, row_view, row_views, set_lead};
use crate::publication_form::{
    ContributorRow, HoldingRow, IdentifierRow, contributor_rows, holding_row_at, holding_row_view,
    id_at, min3, parse_id_at,
};
use crate::raw_input::{
    ContributorInput, HoldingRawInput, IdentifierRawInput, PublicationRawInput, WorkRawInput,
    identifier_input_views, texts, work_input_view, work_input_views,
};
use crate::text::{parse_usize, parse_usize_seq, trim, trim_seq};

verus! {

/// A submitted publication form: one repeated key per column, so every row list arrives as
/// parallel lists.
pub struct PublicationPost {
    pub title: String,
    pub publisher: String,
    pub year: String,
    pub holding_id: Vec<String>,
    pub holding_kind: Vec<HoldingKind>,
    pub holding_location: Vec<String>,
    pub holding_file: Vec<String>,
    pub identifier_kind: Vec<String>,
    pub identifier_value: Vec<String>,
    pub contributor_name: Vec<String>,
    pub contributor_role: Vec<String>,
    pub work_id: Vec<String>,
    pub work_title: Vec<String>,
    pub work_contributor_name: Vec<String>,
    pub work_contributor_role: Vec<String>,
    /// The index of the work whose edit button was clicked; absent on a plain submit
    pub edit_work: Option<String>,
}

/// A work as the publication form posts it: its title and the one contributor the page shows
#[derive(Debug, PartialEq, Eq)]
pub struct PartialWorkPost {
    pub id: Option<i64>,
    pub title: String,
    pub contributor: ContributorInput,
}

/// A posted work by its values, as (id, title, (name, role)).
pub open spec fn posted_view(p: PartialWorkPost) -> (Option<i64>, Seq<char>, (Seq<char>, Seq<char>)) {
    (p.id, p.title@, row_view(p.contributor))
}

/// The index a clicked edit button carries: a number once trimmed, else none.
pub open spec fn edit_index(edit_work: Option<Seq<char>>) -> Option<int> {
    match edit_work {
        Some(s) => parse_usize_seq(trim_seq(s)),
        None => None,
    }
}

/// The first position of the shown work with this id, if any.
pub open spec fn position_of_work(
    pool: Seq<
        (
            Option<i64>,
            Seq<char>,
            Seq<char>,
            Seq<char>,
            Seq<char>,
            Seq<(Seq<char>, Seq<char>)>,
            Seq<Seq<char>>,
        ),
    >,
    id: i64,
) -> Option<int>
    decreases pool.len(),
{
    if pool.len() == 0 {
        None
    } else if pool[0].0 == Some(id) {
        Some(0)
    } else {
        match position_of_work(pool.drop_first(), id) {
            Some(i) => Some(i + 1),
            None => None,
        }
    }
}

/// The works a publication holds once the posted ones are folded into those the page showed, in
/// posted order: a posted work naming a shown one takes it over, sets its title and applies its
/// contributor to the lead (see [lead_set]); any other becomes a new work with just its title
/// and its contributor, if it has one; shown works no posted work names are dropped.
pub open spec fn posted_contents(
    posted: Seq<(Option<i64>, Seq<char>, (Seq<char>, Seq<char>))>,
    pool: Seq<
        (
            Option<i64>,
            Seq<char>,
            Seq<char>,
            Seq<char>,
            Seq<char>,
            Seq<(Seq<char>, Seq<char>)>,
            Seq<Seq<char>>,
        ),
    >,
) -> Seq<
    (
        Option<i64>,
        Seq<char>,
        Seq<char>,
        Seq<char>,
        Seq<char>,
        Seq<(Seq<char>, Seq<char>)>,
        Seq<Seq<char>>,
    ),
>
    decreases posted.len(),
{
    if posted.len() == 0 {
        seq![]
    } else {
        let p = posted[0];
        let found = match p.0 {
            Some(id) => position_of_work(pool, id),
            None => None,
        };
        match found {
            Some(k) => {
                let w = pool[k];
                seq![(w.0, p.1, w.2, w.3, w.4, lead_set(w.5, p.2), w.6)] + posted_contents(
                    posted.drop_first(),
                    pool.remove(k),
                )
            },
            None => seq![
                (
                    None,
                    p.1,
                    Seq::<char>::empty(),
                    Seq::<char>::empty(),
                    Seq::<char>::empty(),
                    lead_set(seq![], p.2),
                    Seq::<Seq<char>>::empty(),
                ),
            ] + posted_contents(posted.drop_first(), pool),
        }
    }
}

pub proof fn lemma_position_of_work(
    pool: Seq<
        (
            Option<i64>,
            Seq<char>,
            Seq<char>,
            Seq<char>,
            Seq<char>,
            Seq<(Seq<char>, Seq<char>)>,
            Seq<Seq<char>>,
        ),
    >,
    id: i64,
)
    ensures
        position_of_work(pool, id) matches Some(i) ==> 0 <= i < pool.len() && pool[i].0 == Some(id)
            && forall|j: int| 0 <= j < i ==> (#[trigger] pool[j]).0 != Some(id),
        position_of_work(pool, id) is None ==> forall|j: int|
            0 <= j < pool.len() ==> (#[trigger] pool[j]).0 != Some(id),
    decreases pool.len(),
{
    if pool.len() > 0 && pool[0].0 != Some(id) {
        lemma_position_of_work(pool.drop_first(), id);
        assert forall|j: int| 1 <= j < pool.len() implies #[trigger] pool[j] == pool.drop_first()[j
            - 1] by {}
    }
}

fn find_shown(shown: &Vec<WorkRawInput>, id: i64) -> (r: Option<usize>)
    ensures
        r matches Some(k) ==> position_of_work(work_input_views(shown@), id) == Some(k as int),
        r is None ==> position_of_work(work_input_views(shown@), id) is None,
{
    let ghost pool = work_input_views(shown@);
    let mut k: usize = 0;
    while k < shown.len()
        invariant
            k <= shown.len(),
            pool == work_input_views(shown@),
            forall|j: int| 0 <= j < k ==> (#[trigger] pool[j]).0 != Some(id),
        decreases shown.len() - k,
    {
        assert(pool[k as int].0 == shown@[k as int].id);
        if shown[k].id == Some(id) {
            proof {
                lemma_position_of_work(pool, id);
            }
            return Some(k);
        }
        k = k + 1;
    }
    proof {
        lemma_position_of_work(pool, id);
    }
    None
}

impl PublicationPost {
    /// The index of the work whose edit button was clicked, on the review page.
    pub fn edit_work(&self) -> (r: Option<usize>)
        ensures
            r matches Some(i) ==> edit_index(
                match self.edit_work {
                    Some(s) => Some(s@),
                    None => None,
                },
            ) == Some(i as int),
            r is None ==> edit_index(
                match self.edit_work {
                    Some(s) => Some(s@),
                    None => None,
                },
            ) is None,
    {
        match &self.edit_work {
            Some(s) => {
                let t = trim(s.as_str());
                parse_usize(t.as_str())
            },
            None => None,
        }
    }

    /// The whole raw input, given the works the page was showing.
    ///
    /// A posted work naming one of them takes it over, sets its title, and applies the posted
    /// contributor to its lead, leaving the fields and credits the page never showed alone. One
    /// naming nothing becomes a new work. Works no posted work names are dropped. Every posted
    /// value is trimmed.
    pub fn merge(self, shown: Vec<WorkRawInput>) -> (r: PublicationRawInput)
        ensures
            r.title@ == trim_seq(self.title@),
            r.publisher@ == trim_seq(self.publisher@),
            r.year@ == trim_seq(self.year@),
            r.holdings@.len() == min3(
                self.holding_kind@.len() as int,
                self.holding_location@.len() as int,
                self.holding_file@.len() as int,
            ),
            forall|i: int|
                0 <= i < r.holdings@.len() ==> holding_row_view(#[trigger] r.holdings@[i])
                    == holding_row_at(
                    self.holding_id@,
                    self.holding_kind@,
                    self.holding_location@,
                    self.holding_file@,
                    i,
                ),
            identifier_input_views(r.identifiers@) == trimmed_pairs(
                self.identifier_kind@,
                self.identifier_value@,
            ),
            row_views(r.contributors@) == trimmed_pairs(
                self.contributor_name@,
                self.contributor_role@,
            ),
            r.links@.len() == 0,
            work_input_views(r.contents@) == posted_contents(
                posted_works(
                    self.work_id@,
                    self.work_title@,
                    self.work_contributor_name@,
                    self.work_contributor_role@,
                ),
                work_input_views(shown@),
            ),
    {
        let PublicationPost {
            title,
            publisher,
            year,
            holding_id,
            holding_kind,
            holding_location,
            holding_file,
            identifier_kind,
            identifier_value,
            contributor_name,
            contributor_role,
            work_id,
            work_title,
            work_contributor_name,
            work_contributor_role,
            edit_work: _,
        } = self;
        let posted = works(work_id, work_title, work_contributor_name, work_contributor_role);
        let contents = fold_works(posted, shown);
        PublicationRawInput {
            title: trim(title.as_str()),
            publisher: trim(publisher.as_str()),
            year: trim(year.as_str()),
            holdings: holdings(holding_id, holding_kind, holding_location, holding_file),
            identifiers: identifiers(identifier_kind, identifier_value),
            contributors: contributors(contributor_name, contributor_role),
            links: Vec::new(),
            contents,
        }
    }
}

/// The posted works folded into the shown ones (see [posted_contents]).
fn fold_works(posted: Vec<PartialWorkPost>, shown: Vec<WorkRawInput>) -> (r: Vec<WorkRawInput>)
    ensures
        work_input_views(r@) == posted_contents(
            posted@.map_values(|p: PartialWorkPost| posted_view(p)),
            work_input_views(shown@),
        ),
{
    let ghost all = posted@.map_values(|p: PartialWorkPost| posted_view(p));
    let ghost goal = posted_contents(all, work_input_views(shown@));
    let mut shown = shown;
    let mut contents: Vec<WorkRawInput> = Vec::new();
    let mut i: usize = 0;
    assert(all.skip(0) =~= all);
    while i < posted.len()
        invariant
            i <= posted.len(),
            all == posted@.map_values(|p: PartialWorkPost| posted_view(p)),
            goal == work_input_views(contents@) + posted_contents(
                all.skip(i as int),
                work_input_views(shown@),
            ),
        decreases posted.len() - i,
    {
        let p = &posted[i];
        let ghost pool = work_input_views(shown@);
        let ghost before = work_input_views(contents@);
        let ghost pv = all[i as int];
        let ghost tail = all.skip(i as int);
        assert(pv == posted_view(*p));
        assert(tail[0] == pv);
        assert(tail.drop_first() =~= all.skip(i + 1));
        // An id no shown work has names nothing this form may edit
        let existing = match p.id {
            Some(id) => find_shown(&shown, id),
            None => None,
        };
        proof {
            if let Some(id) = p.id {
                lemma_position_of_work(pool, id);
            }
        }
        match existing {
            Some(k) => {
                let mut work = shown.remove(k);
                let ghost w = pool[k as int];
                assert(work_input_view(work) == w);
                assert(work_input_views(shown@) =~= pool.remove(k as int));
                work.title = p.title.clone();
                set_lead(&mut work.contributors, &p.contributor);
                assert(work_input_view(work) == (w.0, pv.1, w.2, w.3, w.4, lead_set(w.5, pv.2), w.6));
                contents.push(work);
                assert(work_input_views(contents@) =~= before.push(
                    work_input_view(contents@[contents.len() - 1]),
                ));
                proof {
                    let rest = posted_contents(tail.drop_first(), pool.remove(k as int));
                    assert(posted_contents(tail, pool) == seq![
                        (w.0, pv.1, w.2, w.3, w.4, lead_set(w.5, pv.2), w.6),
                    ] + rest);
                    assert(work_input_views(contents@) + rest =~= before + posted_contents(
                        tail,
                        pool,
                    ));
                }
            },
            None => {
                let mut work = WorkRawInput::default();
                work.title = p.title.clone();
                set_lead(&mut work.contributors, &p.contributor);
                proof {
                    assert(row_views(Seq::<ContributorRow>::empty()) =~= Seq::<
                        (Seq<char>, Seq<char>),
                    >::empty());
                    assert(texts(Seq::<String>::empty()) =~= Seq::<Seq<char>>::empty());
                }
                let ghost fresh = (
                    None::<i64>,
                    pv.1,
                    Seq::<char>::empty(),
                    Seq::<char>::empty(),
                    Seq::<char>::empty(),
                    lead_set(seq![], pv.2),
                    Seq::<Seq<char>>::empty(),
                );
                assert(work_input_view(work) == fresh);
                contents.push(work);
                assert(work_input_views(contents@) =~= before.push(fresh));
                proof {
                    let rest = posted_contents(tail.drop_first(), pool);
                    assert(posted_contents(tail, pool) == seq![fresh] + rest);
                    assert(work_input_views(contents@) + rest =~= before + posted_contents(
                        tail,
                        pool,
                    ));
                }
            },
        }
        i = i + 1;
    }
    assert(all.skip(posted.len() as int) =~= Seq::<
        (Option<i64>, Seq<char>, (Seq<char>, Seq<char>)),
    >::empty());
    assert(work_input_views(contents@) =~= goal);
    contents
}

/// The contributor a work shows on the publication pages: its composer, else its author, else the
/// first credited.
pub fn lead_contributor(contributors: &[ContributorInput]) -> (r: Option<usize>)
    ensures
        r matches Some(i) ==> lead_of(role_views(row_views(contributors@))) == Some(i as int),
        r is None ==> lead_of(role_views(row_views(contributors@))) is None,
{
    let mut names: Vec<&str> = Vec::new();
    let mut i: usize = 0;
    while i < contributors.len()
        invariant
            i <= contributors.len(),
            names.len() == i,
            forall|j: int| 0 <= j < i ==> (#[trigger] names@[j])@ == contributors@[j].role@,
        decreases contributors.len() - i,
    {
        names.push(contributors[i].role.as_str());
        i = i + 1;
    }
    assert(names@.map_values(|s: &str| s@) =~= role_views(row_views(contributors@)));
    lead_in(&names)
}

/// Copies from the parallel keys. Every copy submits a kind, a location and a file, and the kind
/// picks which of the two counts.
///
/// The ids are read by position rather than zipped: a missing or short id list leaves the copies it
/// does not reach naming no stored copy, which is what a page with nothing stored yet submits.
pub fn holdings(
    id: Vec<String>,
    kind: Vec<HoldingKind>,
    location: Vec<String>,
    file: Vec<String>,
) -> (r: Vec<HoldingRawInput>)
    ensures
        r@.len() == min3(kind@.len() as int, location@.len() as int, file@.len() as int),
        forall|i: int|
            0 <= i < r@.len() ==> holding_row_view(#[trigger] r@[i]) == holding_row_at(
                id@,
                kind@,
                location@,
                file@,
                i,
            ),
{
    let mut r: Vec<HoldingRawInput> = Vec::new();
    let mut i: usize = 0;
    while i < kind.len() && i < location.len() && i < file.len()
        invariant
            i <= kind.len(),
            i <= location.len(),
            i <= file.len(),
            r@.len() == i,
            forall|j: int|
                0 <= j < i ==> holding_row_view(#[trigger] r@[j]) == holding_row_at(
                    id@,
                    kind@,
                    location@,
                    file@,
                    j,
                ),
        decreases kind.len() - i,
    {
        let k = kind[i];
        let chosen = match k {
            HoldingKind::Physical => trim(location[i].as_str()),
            HoldingKind::Digital => trim(file[i].as_str()),
        };
        r.push(HoldingRow { id: parse_id_at(&id, i), kind: k, location: chosen });
        i = i + 1;
    }
    r
}

/// Parallel lists paired up to the shorter one, each value trimmed.
pub open spec fn trimmed_pairs(a: Seq<String>, b: Seq<String>) -> Seq<(Seq<char>, Seq<char>)> {
    Seq::new(
        if a.len() <= b.len() {
            a.len()
        } else {
            b.len()
        },
        |i: int| (trim_seq(a[i]@), trim_seq(b[i]@)),
    )
}

/// Credits from the parallel keys; the work form decodes the same
pub fn contributors(name: Vec<String>, role: Vec<String>) -> (r: Vec<ContributorInput>)
    ensures
        row_views(r@) == trimmed_pairs(name@, role@),
{
    let ghost n = name@;
    let ghost o = role@;
    let r = contributor_rows(name, role);
    assert(row_views(r@) =~= trimmed_pairs(n, o));
    r
}

fn identifiers(kind: Vec<String>, value: Vec<String>) -> (r: Vec<IdentifierRawInput>)
    ensures
        identifier_input_views(r@) == trimmed_pairs(kind@, value@),
{
    let mut r: Vec<IdentifierRawInput> = Vec::new();
    let mut i: usize = 0;
    while i < kind.len() && i < value.len()
        invariant
            i <= kind.len(),
            i <= value.len(),
            r@.len() == i,
            forall|j: int|
                0 <= j < i ==> (#[trigger] r@[j]).kind@ == trim_seq(kind@[j]@) && r@[j].value@
                    == trim_seq(value@[j]@),
        decreases kind.len() - i,
    {
        r.push(IdentifierRow { kind: trim(kind[i].as_str()), value: trim(value[i].as_str()) });
        i = i + 1;
    }
    assert(identifier_input_views(r@) =~= trimmed_pairs(kind@, value@));
    r
}

/// The works posted in parallel lists, up to the shortest of titles, names and roles, with the
/// ids read by position and every value trimmed.
pub open spec fn posted_works(
    id: Seq<String>,
    title: Seq<String>,
    name: Seq<String>,
    role: Seq<String>,
) -> Seq<(Option<i64>, Seq<char>, (Seq<char>, Seq<char>))> {
    Seq::new(
        min3(title.len() as int, name.len() as int, role.len() as int) as nat,
        |i: int| (id_at(id, i), trim_seq(title[i]@), (trim_seq(name[i]@), trim_seq(role[i]@))),
    )
}

/// Works from the parallel keys, with the ids read by position for the same reason copies' are.
fn works(id: Vec<String>, title: Vec<String>, name: Vec<String>, role: Vec<String>) -> (r: Vec<
    PartialWorkPost,
>)
    ensures
        r@.map_values(|p: PartialWorkPost| posted_view(p)) == posted_works(
            id@,
            title@,
            name@,
            role@,
        ),
{
    let mut r: Vec<PartialWorkPost> = Vec::new();
    let mut i: usize = 0;
    while i < title.len() && i < name.len() && i < role.len()
        invariant
            i <= title.len(),
            i <= name.len(),
            i <= role.len(),
            r@.len() == i,
            forall|j: int|
                0 <= j < i ==> posted_view(#[trigger] r@[j]) == (
                    id_at(id@, j),
                    trim_seq(title@[j]@),
                    (trim_seq(name@[j]@), trim_seq(role@[j]@)),
                ),
        decreases title.len() - i,
    {
        r.push(
            PartialWorkPost {
                id: parse_id_at(&id, i),
                title: trim(title[i].as_str()),
                contributor: ContributorRow {
                    name: trim(name[i].as_str()),
                    role: trim(role[i].as_str()),
                },
            },
        );
        i = i + 1;
    }
    assert(r@.map_values(|p: PartialWorkPost| posted_view(p)) =~= posted_works(
        id@,
        title@,
        name@,
        role@,
    ));
    r
}


/// Every posted work becomes exactly one work of the publication, in posted order, and keeps its
/// title; a shown work it takes over keeps its id and every field the page does not show.
pub proof fn lemma_posted_contents(
    posted: Seq<(Option<i64>, Seq<char>, (Seq<char>, Seq<char>))>,
    pool: Seq<
        (
            Option<i64>,
            Seq<char>,
            Seq<char>,
            Seq<char>,
            Seq<char>,
            Seq<(Seq<char>, Seq<char>)>,
            Seq<Seq<char>>,
        ),
    >,
)
    ensures
        posted_contents(posted, pool).len() == posted.len(),
        forall|i: int|
            0 <= i < posted.len() ==> (#[trigger] posted_contents(posted, pool)[i]).1
                == posted[i].1,
        forall|i: int|
            0 <= i < posted.len() ==> (#[trigger] posted_contents(posted, pool)[i]).0 is None || (
            posted_contents(posted, pool)[i].0 == posted[i].0),
    decreases posted.len(),
{
    if posted.len() > 0 {
        let p = posted[0];
        let found = match p.0 {
            Some(id) => position_of_work(pool, id),
            None => None,
        };
        if let Some(id) = p.0 {
            lemma_position_of_work(pool, id);
        }
        let res = posted_contents(posted, pool);
        match found {
            Some(k) => {
                lemma_posted_contents(posted.drop_first(), pool.remove(k));
                let rest = posted_contents(posted.drop_first(), pool.remove(k));
                assert forall|i: int| 1 <= i < posted.len() implies #[trigger] res[i] == rest[i - 1]
                    && posted[i] == posted.drop_first()[i - 1] by {}
            },
            None => {
                lemma_posted_contents(posted.drop_first(), pool);
                let rest = posted_contents(posted.drop_first(), pool);
                assert forall|i: int| 1 <= i < posted.len() implies #[trigger] res[i] == rest[i - 1]
                    && posted[i] == posted.drop_first()[i - 1] by {}
            },
        }
    }
}

} // verus!
