//! The publication page's works table.

use vstd::prelude::*;

use crate::db::work::Work;
use crate::raw_input::texts;
use crate::text::chars_of;

verus! {

/// Strings ordered as `str` orders them: by their first differing character, a prefix first.
pub open spec fn text_before(a: Seq<char>, b: Seq<char>) -> bool
    decreases a.len(),
{
    if a.len() == 0 {
        b.len() > 0
    } else if b.len() == 0 {
        false
    } else if a[0] != b[0] {
        (a[0] as int) < (b[0] as int)
    } else {
        text_before(a.drop_first(), b.drop_first())
    }
}

/// Each string comes before every later one, so none repeats.
pub open spec fn strictly_sorted(s: Seq<Seq<char>>) -> bool {
    forall|i: int, j: int| 0 <= i < j < s.len() ==> text_before(#[trigger] s[i], #[trigger] s[j])
}

pub proof fn lemma_text_before_irreflexive(a: Seq<char>)
    ensures
        !text_before(a, a),
    decreases a.len(),
{
    if a.len() > 0 {
        lemma_text_before_irreflexive(a.drop_first());
    }
}

pub proof fn lemma_text_before_transitive(a: Seq<char>, b: Seq<char>, c: Seq<char>)
    requires
        text_before(a, b),
        text_before(b, c),
    ensures
        text_before(a, c),
    decreases a.len(),
{
    if a.len() > 0 && a[0] == b[0] && b[0] == c[0] {
        lemma_text_before_transitive(a.drop_first(), b.drop_first(), c.drop_first());
    }
}

pub proof fn lemma_text_before_total(a: Seq<char>, b: Seq<char>)
    ensures
        a == b || text_before(a, b) || text_before(b, a),
    decreases a.len(),
{
    if a.len() > 0 && b.len() > 0 && a[0] == b[0] {
        lemma_text_before_total(a.drop_first(), b.drop_first());
        if a.drop_first() == b.drop_first() {
            assert(a =~= seq![a[0]] + a.drop_first());
            assert(b =~= seq![b[0]] + b.drop_first());
        }
    } else if a.len() == 0 && b.len() == 0 {
        assert(a =~= b);
    } else if a.len() > 0 && b.len() > 0 {
        assert((a[0] as int) != (b[0] as int));
    }
}

pub proof fn lemma_text_before_asymmetric(a: Seq<char>, b: Seq<char>)
    requires
        text_before(a, b),
    ensures
        !text_before(b, a),
{
    if text_before(b, a) {
        lemma_text_before_transitive(a, b, a);
        lemma_text_before_irreflexive(a);
    }
}

/// Whether `a` sorts before `b`.
pub(crate) fn text_less(a: &str, b: &str) -> (r: bool)
    ensures
        r == text_before(a@, b@),
{
    let x = chars_of(a);
    let y = chars_of(b);
    let mut i: usize = 0;
    assert(x@.skip(0) =~= x@);
    assert(y@.skip(0) =~= y@);
    while i < x.len() && i < y.len()
        invariant
            i <= x.len(),
            i <= y.len(),
            x@ == a@,
            y@ == b@,
            text_before(a@, b@) == text_before(x@.skip(i as int), y@.skip(i as int)),
        decreases x.len() - i,
    {
        let ghost xs = x@.skip(i as int);
        let ghost ys = y@.skip(i as int);
        assert(xs[0] == x@[i as int]);
        assert(ys[0] == y@[i as int]);
        if x[i] != y[i] {
            return x[i] < y[i];
        }
        assert(xs.drop_first() =~= x@.skip(i + 1));
        assert(ys.drop_first() =~= y@.skip(i + 1));
        i = i + 1;
    }
    assert(x@.skip(i as int).len() == x.len() - i);
    assert(y@.skip(i as int).len() == y.len() - i);
    i == x.len() && i < y.len()
}

/// Add a string to a sorted list unless it holds it already, keeping the list sorted.
fn insert_sorted(list: &mut Vec<String>, s: &String)
    requires
        strictly_sorted(texts(old(list)@)),
    ensures
        strictly_sorted(texts(final(list)@)),
        texts(final(list)@).to_set() == texts(old(list)@).to_set().insert(s@),
{
    let ghost before = texts(list@);
    let mut i: usize = 0;
    while i < list.len() && text_less(list[i].as_str(), s.as_str())
        invariant
            i <= list.len(),
            before == texts(list@),
            forall|k: int| 0 <= k < i ==> text_before(#[trigger] before[k], s@),
        decreases list.len() - i,
    {
        i = i + 1;
    }
    if i < list.len() && crate::text::str_eq(list[i].as_str(), s.as_str()) {
        assert(before[i as int] == s@);
        assert(before.to_set().insert(s@) =~= before.to_set());
        return;
    }
    proof {
        if i < list.len() {
            assert(!text_before(before[i as int], s@));
            lemma_text_before_total(before[i as int], s@);
            assert(text_before(s@, before[i as int]));
            assert forall|k: int| i < k < before.len() implies text_before(s@, #[trigger] before[k]) by {
                lemma_text_before_transitive(s@, before[i as int], before[k]);
            }
        }
    }
    list.insert(i, s.clone());
    let ghost after = texts(list@);
    assert(after =~= before.insert(i as int, s@));
    assert forall|a: int, b: int| 0 <= a < b < after.len() implies text_before(
        #[trigger] after[a],
        #[trigger] after[b],
    ) by {
        if b < i {
            assert(after[a] == before[a] && after[b] == before[b]);
        } else if b == i {
            assert(after[a] == before[a]);
        } else if a < i {
            assert(after[a] == before[a] && after[b] == before[b - 1]);
            lemma_text_before_transitive(before[a], s@, before[b - 1]);
        } else if a == i {
            assert(after[b] == before[b - 1]);
        } else {
            assert(after[a] == before[a - 1] && after[b] == before[b - 1]);
        }
    }
    assert forall|t: Seq<char>| after.to_set().contains(t) <==> before.to_set().insert(
        s@,
    ).contains(t) by {
        if after.contains(t) {
            let k = choose|k: int| 0 <= k < after.len() && after[k] == t;
            if k < i {
                assert(before[k] == t);
            } else if k > i {
                assert(before[k - 1] == t);
            }
        }
        if before.contains(t) {
            let k = choose|k: int| 0 <= k < before.len() && before[k] == t;
            if k < i {
                assert(after[k] == t);
            } else {
                assert(after[k + 1] == t);
            }
        }
        if t == s@ {
            assert(after[i as int] == t);
        }
    }
    assert(after.to_set() =~= before.to_set().insert(s@));
}

/// The roles the first `n` works credit.
pub open spec fn roles_upto(works: Seq<Work>, n: int) -> Set<Seq<char>> {
    Set::new(
        |r: Seq<char>|
            exists|k: int, m: int|
                0 <= k < n && 0 <= m < works[k].contributors@.len()
                    && #[trigger] works[k].contributors@[m].role@ == r,
    )
}

/// The roles the first `n` credits of a work name.
pub open spec fn work_roles_upto(work: Work, n: int) -> Set<Seq<char>> {
    Set::new(|r: Seq<char>| exists|m: int| 0 <= m < n && #[trigger] work.contributors@[m].role@ == r)
}

/// Every role some work credits.
pub open spec fn credited_roles(works: Seq<Work>) -> Set<Seq<char>> {
    roles_upto(works, works.len() as int)
}

proof fn lemma_work_roles_step(work: Work, n: int)
    requires
        0 <= n < work.contributors@.len(),
    ensures
        work_roles_upto(work, n + 1) == work_roles_upto(work, n).insert(
            work.contributors@[n].role@,
        ),
{
    assert forall|r: Seq<char>| #[trigger] work_roles_upto(work, n + 1).contains(r) == work_roles_upto(
        work,
        n,
    ).insert(work.contributors@[n].role@).contains(r) by {
        if work_roles_upto(work, n + 1).contains(r) {
            let m = choose|m: int| 0 <= m < n + 1 && #[trigger] work.contributors@[m].role@ == r;
            if m < n {
                assert(work_roles_upto(work, n).contains(r));
            }
        }
        if work_roles_upto(work, n).contains(r) {
            let m = choose|m: int| 0 <= m < n && #[trigger] work.contributors@[m].role@ == r;
            assert(0 <= m < n + 1 && work.contributors@[m].role@ == r);
        }
    }
    assert(work_roles_upto(work, n + 1) =~= work_roles_upto(work, n).insert(
        work.contributors@[n].role@,
    ));
}

proof fn lemma_roles_step(works: Seq<Work>, n: int)
    requires
        0 <= n < works.len(),
    ensures
        roles_upto(works, n + 1) == roles_upto(works, n).union(
            work_roles_upto(works[n], works[n].contributors@.len() as int),
        ),
{
    let w = works[n];
    let all = work_roles_upto(w, w.contributors@.len() as int);
    assert forall|r: Seq<char>| #[trigger] roles_upto(works, n + 1).contains(r) == roles_upto(
        works,
        n,
    ).union(all).contains(r) by {
        if roles_upto(works, n + 1).contains(r) {
            let (k, m) = choose|k: int, m: int|
                0 <= k < n + 1 && 0 <= m < works[k].contributors@.len()
                    && #[trigger] works[k].contributors@[m].role@ == r;
            if k < n {
                assert(roles_upto(works, n).contains(r));
            } else {
                assert(all.contains(r));
            }
        }
        if roles_upto(works, n).contains(r) {
            let (k, m) = choose|k: int, m: int|
                0 <= k < n && 0 <= m < works[k].contributors@.len()
                    && #[trigger] works[k].contributors@[m].role@ == r;
            assert(0 <= k < n + 1 && works[k].contributors@[m].role@ == r);
        }
        if all.contains(r) {
            let m = choose|m: int|
                0 <= m < w.contributors@.len() && #[trigger] w.contributors@[m].role@ == r;
            assert(works[n].contributors@[m].role@ == r);
        }
    }
    assert(roles_upto(works, n + 1) =~= roles_upto(works, n).union(all));
}

/// The works table and its columns. Columns that would be empty for every work are left out:
/// books have no catalog numbers, and their works have authors where scores have composers.
///
/// Returns the works, whether any has a catalog number, and the roles any work credits, each
/// once and in order.
pub fn works_table(works: Vec<Work>) -> (r: (Vec<Work>, bool, Vec<String>))
    ensures
        r.0@ == works@,
        r.1 == exists|i: int| 0 <= i < works@.len() && (#[trigger] works@[i]).catalog_numbers@.len() > 0,
        strictly_sorted(texts(r.2@)),
        texts(r.2@).to_set() == credited_roles(works@),
{
    let mut show_catalog_numbers = false;
    let mut roles: Vec<String> = Vec::new();
    let mut i: usize = 0;
    assert(texts(roles@).to_set() =~= roles_upto(works@, 0));
    while i < works.len()
        invariant
            i <= works.len(),
            show_catalog_numbers == exists|k: int|
                0 <= k < i && (#[trigger] works@[k]).catalog_numbers@.len() > 0,
            strictly_sorted(texts(roles@)),
            texts(roles@).to_set() == roles_upto(works@, i as int),
        decreases works.len() - i,
    {
        let work = &works[i];
        if work.catalog_numbers.len() > 0 {
            show_catalog_numbers = true;
        }
        let ghost done = texts(roles@).to_set();
        let mut j: usize = 0;
        assert(work_roles_upto(*work, 0) =~= Set::<Seq<char>>::empty());
        assert(done.union(work_roles_upto(*work, 0)) =~= done);
        while j < work.contributors.len()
            invariant
                j <= work.contributors.len(),
                *work == works@[i as int],
                strictly_sorted(texts(roles@)),
                texts(roles@).to_set() == done.union(work_roles_upto(*work, j as int)),
            decreases work.contributors.len() - j,
        {
            insert_sorted(&mut roles, &work.contributors[j].role);
            proof {
                lemma_work_roles_step(*work, j as int);
                assert(done.union(work_roles_upto(*work, j as int)).insert(
                    work.contributors@[j as int].role@,
                ) =~= done.union(work_roles_upto(*work, j + 1)));
            }
            j = j + 1;
        }
        proof {
            lemma_roles_step(works@, i as int);
        }
        i = i + 1;
    }
    (works, show_catalog_numbers, roles)
}

} // verus!
