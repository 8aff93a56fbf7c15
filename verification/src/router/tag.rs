//! The page of everything one tag is on.

use vstd::prelude::*;

use crate::db::person::Contributor;
use crate::router::item_href;
use crate::router::publication::{
    lemma_text_before_asymmetric, lemma_text_before_transitive, text_before,
};
use crate::text::str_eq;

verus! {

/// A publication or a work that carries a tag, as the catalog reads it back.
pub struct Tagged {
    pub library_id: i64,
    pub id: i64,
    pub title: String,
    pub contributors: Vec<Contributor>,
    pub stars: Option<i64>,
    pub tags: Vec<String>,
}

/// A publication or a work as one entry of the tag page, so the page has one row type.
pub struct TaggedEntity {
    pub kind: &'static str,
    pub href: String,
    pub title: String,
    pub contributors: Vec<Contributor>,
    pub stars: Option<i64>,
    pub tags: Vec<String>,
}

/// An entry by what the page shows of it: (kind, link, title, stars).
pub open spec fn entry_view(e: TaggedEntity) -> (Seq<char>, Seq<char>, Seq<char>, Option<i64>) {
    (e.kind@, e.href@, e.title@, e.stars)
}

/// The entry a tagged publication or work becomes.
pub open spec fn entry_of(kind: Seq<char>, t: Tagged) -> (Seq<char>, Seq<char>, Seq<char>, Option<i64>) {
    (kind, item_href(t.library_id, kind, t.id), t.title@, t.stars)
}

/// Entries ordered by title, ties in any order.
pub open spec fn by_title(s: Seq<TaggedEntity>) -> bool {
    forall|i: int, j: int|
        0 <= i < j < s.len() ==> !text_before(#[trigger] s[j].title@, #[trigger] s[i].title@)
}

fn entry(kind: &'static str, t: Tagged) -> (r: TaggedEntity)
    ensures
        entry_view(r) == entry_of(kind@, t),
        r.contributors@ == t.contributors@,
        r.tags@ == t.tags@,
{
    let href = crate::router::item_path(t.library_id, kind, t.id);
    TaggedEntity {
        kind,
        href,
        title: t.title,
        contributors: t.contributors,
        stars: t.stars,
        tags: t.tags,
    }
}

/// Put an entry after every entry whose title does not come after its own.
fn insert_by_title(list: &mut Vec<TaggedEntity>, e: TaggedEntity)
    requires
        by_title(old(list)@),
    ensures
        by_title(final(list)@),
        final(list)@.to_multiset() == old(list)@.to_multiset().insert(e),
{
    let ghost before = list@;
    let mut p: usize = 0;
    while p < list.len() && !text_less(e.title.as_str(), list[p].title.as_str())
        invariant
            p <= list.len(),
            before == list@,
            forall|k: int| 0 <= k < p ==> !text_before(e.title@, #[trigger] before[k].title@),
        decreases list.len() - p,
    {
        p = p + 1;
    }
    proof {
        if p < before.len() {
            assert(text_before(e.title@, before[p as int].title@));
            lemma_text_before_asymmetric(e.title@, before[p as int].title@);
        }
    }
    list.insert(p, e);
    let ghost after = list@;
    assert(after =~= before.insert(p as int, e));
    proof {
        vstd::seq_lib::to_multiset_insert(before, p as int, e);
    }
    assert forall|i: int, j: int| 0 <= i < j < after.len() implies !text_before(
        #[trigger] after[j].title@,
        #[trigger] after[i].title@,
    ) by {
        if j < p {
            assert(after[i] == before[i] && after[j] == before[j]);
        } else if j == p {
            assert(after[i] == before[i]);
        } else if i < p {
            assert(after[i] == before[i] && after[j] == before[j - 1]);
        } else if i == p {
            assert(after[j] == before[j - 1]);
            if text_before(before[j - 1].title@, e.title@) {
                lemma_text_before_transitive(
                    before[j - 1].title@,
                    e.title@,
                    before[p as int].title@,
                );
            }
        } else {
            assert(after[i] == before[i - 1] && after[j] == before[j - 1]);
        }
    }
}

fn text_less(a: &str, b: &str) -> (r: bool)
    ensures
        r == text_before(a@, b@),
{
    crate::router::publication::text_less(a, b)
}

/// The entries of the tag page: every tagged publication, then every tagged work, each linked to
/// its page, ordered by title. None when nothing carries the tag, which is a page that does not
/// exist (as an invalid tag is).
pub fn tagged(publications: Vec<Tagged>, works: Vec<Tagged>) -> (r: Option<Vec<TaggedEntity>>)
    ensures
        r is None <==> publications@.len() == 0 && works@.len() == 0,
        r matches Some(entries) ==> by_title(entries@) && entries@.map_values(
            |e: TaggedEntity| entry_view(e),
        ).to_multiset() == (publications@.map_values(|t: Tagged| entry_of("publication"@, t))
            + works@.map_values(|t: Tagged| entry_of("work"@, t))).to_multiset(),
{
    let ghost goal = publications@.map_values(|t: Tagged| entry_of("publication"@, t))
        + works@.map_values(|t: Tagged| entry_of("work"@, t));
    if publications.len() == 0 && works.len() == 0 {
        return None;
    }
    let ghost np = publications@.len();
    let mut made: Vec<TaggedEntity> = Vec::new();
    let mut publications = publications;
    let ghost pubs = publications@;
    let ghost wks = works@;
    while publications.len() > 0
        invariant
            made@.len() + publications@.len() == pubs.len(),
            publications@ == pubs.skip(made@.len() as int),
            made@.map_values(|e: TaggedEntity| entry_view(e)) == pubs.take(made@.len() as int).map_values(
                |t: Tagged| entry_of("publication"@, t),
            ),
        decreases publications@.len(),
    {
        let ghost k: int = made@.len() as int;
        let ghost before = made@;
        let t = publications.remove(0);
        assert(t == pubs[k]);
        let ghost tv = entry_of("publication"@, t);
        made.push(entry("publication", t));
        assert(publications@ =~= pubs.skip(k + 1));
        assert(made@ == before.push(made@[k]));
        assert(entry_view(made@[k]) == tv);
        assert(made@.map_values(|e: TaggedEntity| entry_view(e)) =~= before.map_values(
            |e: TaggedEntity| entry_view(e),
        ).push(tv));
        assert(pubs.take(k + 1).map_values(|t: Tagged| entry_of("publication"@, t)) =~= pubs.take(
            k,
        ).map_values(|t: Tagged| entry_of("publication"@, t)).push(tv));
    }
    assert(pubs.take(pubs.len() as int) =~= pubs);
    let mut works = works;
    let ghost nw = made@.len();
    while works.len() > 0
        invariant
            nw == pubs.len(),
            made@.len() >= nw,
            made@.len() + works@.len() == pubs.len() + wks.len(),
            works@ == wks.skip(made@.len() - nw),
            made@.map_values(|e: TaggedEntity| entry_view(e)) == pubs.map_values(
                |t: Tagged| entry_of("publication"@, t),
            ) + wks.take(made@.len() - nw).map_values(|t: Tagged| entry_of("work"@, t)),
        decreases works@.len(),
    {
        let ghost k: int = made@.len() - nw;
        let ghost before = made@;
        assert(works@[0] == wks.skip(k)[0]);
        let t = works.remove(0);
        assert(t == wks[k]);
        let ghost tv = entry_of("work"@, t);
        made.push(entry("work", t));
        assert(works@ =~= wks.skip(k + 1));
        assert(made@ == before.push(made@[before.len() as int]));
        assert(entry_view(made@[before.len() as int]) == tv);
        assert(made@.map_values(|e: TaggedEntity| entry_view(e)) =~= before.map_values(
            |e: TaggedEntity| entry_view(e),
        ).push(tv));
        assert(wks.take(k + 1).map_values(|t: Tagged| entry_of("work"@, t)) =~= wks.take(
            k,
        ).map_values(|t: Tagged| entry_of("work"@, t)).push(tv));
    }
    assert(wks.take(wks.len() as int) =~= wks);
    assert(made@.map_values(|e: TaggedEntity| entry_view(e)) =~= goal);
    // Ordered by title, as an insertion sort that keeps equal titles in the order they came
    let ghost all = made@;
    let mut sorted: Vec<TaggedEntity> = Vec::new();
    let mut k: usize = 0;
    assert(all.skip(0) =~= all);
    assert(all.take(0) =~= sorted@);
    assert(all.len() == made.len());
    while made.len() > 0
        invariant
            k + made@.len() == all.len(),
            all.len() <= usize::MAX,
            made@ == all.skip(k as int),
            by_title(sorted@),
            sorted@.to_multiset() == all.take(k as int).to_multiset(),
        decreases made@.len(),
    {
        let e = made.remove(0);
        assert(e == all[k as int]);
        proof {
            assert(all.take(k + 1) =~= all.take(k as int).push(e));
            vstd::seq_lib::to_multiset_build(all.take(k as int), e);
        }
        insert_by_title(&mut sorted, e);
        assert(made@ =~= all.skip(k + 1));
        k = k + 1;
    }
    assert(all.take(k as int) =~= all);
    proof {
        lemma_views_same_multiset(sorted@, all);
    }
    Some(sorted)
}

/// Two lists with the same entries show the same views, as multisets.
proof fn lemma_views_same_multiset(a: Seq<TaggedEntity>, b: Seq<TaggedEntity>)
    requires
        a.to_multiset() == b.to_multiset(),
    ensures
        a.map_values(|e: TaggedEntity| entry_view(e)).to_multiset() == b.map_values(
            |e: TaggedEntity| entry_view(e),
        ).to_multiset(),
    decreases a.len(),
{
    broadcast use vstd::seq_lib::group_to_multiset_ensures;
    if a.len() == 0 {
        assert(b.to_multiset().len() == 0);
        assert(b.len() == 0);
        assert(a.map_values(|e: TaggedEntity| entry_view(e)) =~= Seq::empty());
        assert(b.map_values(|e: TaggedEntity| entry_view(e)) =~= Seq::empty());
    } else {
        let x = a.last();
        assert(b.to_multiset().contains(x));
        let i = choose|i: int| 0 <= i < b.len() && b[i] == x;
        vstd::seq_lib::to_multiset_remove(b, i);
        vstd::seq_lib::to_multiset_build(a.drop_last(), x);
        assert(a.drop_last().push(x) =~= a);
        assert(a.drop_last().to_multiset() =~= b.remove(i).to_multiset());
        lemma_views_same_multiset(a.drop_last(), b.remove(i));
        let f = |e: TaggedEntity| entry_view(e);
        assert(a.map_values(f) =~= a.drop_last().map_values(f).push(f(x)));
        assert(b.remove(i).map_values(f) =~= b.map_values(f).remove(i));
        vstd::seq_lib::to_multiset_build(a.drop_last().map_values(f), f(x));
        vstd::seq_lib::to_multiset_remove(b.map_values(f), i);
    }
}

} // verus!
