//! Filling a draft with what an outside source found about the publication.

pub mod open_library;

use vstd::prelude::*;

use crate::identifier::{self, Kind, Normalized, normalized};
use crate::import::{row_view, row_views};
use crate::raw_input::{
    ContributorInput, IdentifierRawInput, PublicationRawInput, identifier_input_view,
    identifier_input_views, texts,
};
use crate::text::{str_eq, trim, trim_seq};

verus! {

/// A field keeps what it holds, and takes what was found only when it holds nothing but
/// whitespace.
pub open spec fn filled(field: Seq<char>, found: Seq<char>) -> Seq<char> {
    if trim_seq(field).len() == 0 {
        found
    } else {
        field
    }
}

/// `found` added to the end of `acc` in order, each value only where the list does not hold it
/// yet, so neither the list nor `found` brings a value twice.
pub open spec fn append_absent<T>(acc: Seq<T>, found: Seq<T>) -> Seq<T>
    decreases found.len(),
{
    if found.len() == 0 {
        acc
    } else {
        let next = if acc.contains(found[0]) {
            acc
        } else {
            acc.push(found[0])
        };
        append_absent(next, found.drop_first())
    }
}

/// An identifier's canonical form: its kind and normalized value, or None when it does not parse
/// and so can never match another.
pub open spec fn identifier_key(i: (Seq<char>, Seq<char>)) -> Option<(Kind, Seq<char>)> {
    match Kind::named(i.0) {
        Some(kind) => match normalized(kind, i.1) {
            Ok(value) => Some((kind, value)),
            Err(_) => None,
        },
        None => None,
    }
}

/// Some identifier of `acc` has the canonical form of `x`.
pub open spec fn identifier_present(acc: Seq<(Seq<char>, Seq<char>)>, x: (Seq<char>, Seq<char>)) -> bool {
    &&& identifier_key(x) is Some
    &&& exists|j: int| 0 <= j < acc.len() && #[trigger] identifier_key(acc[j]) == identifier_key(x)
}

/// `found` added to the end of `acc` in order, each identifier only where no identifier the list
/// holds by then has its canonical form. One that does not parse is always added.
pub open spec fn append_identifiers(
    acc: Seq<(Seq<char>, Seq<char>)>,
    found: Seq<(Seq<char>, Seq<char>)>,
) -> Seq<(Seq<char>, Seq<char>)>
    decreases found.len(),
{
    if found.len() == 0 {
        acc
    } else {
        let next = if identifier_present(acc, found[0]) {
            acc
        } else {
            acc.push(found[0])
        };
        append_identifiers(next, found.drop_first())
    }
}

/// Fill a draft with what a source found, without disturbing what is already there.
///
/// An empty title, publisher or year takes the found one. Found identifiers, credits and links
/// are added after the draft's own, each only if the draft does not hold it yet: identifiers are
/// compared by their canonical form, credits and links as typed. Copies and works are left alone.
pub fn merge(draft: &mut PublicationRawInput, found: PublicationRawInput)
    ensures
        final(draft).title@ == filled(old(draft).title@, found.title@),
        final(draft).publisher@ == filled(old(draft).publisher@, found.publisher@),
        final(draft).year@ == filled(old(draft).year@, found.year@),
        final(draft).holdings@ == old(draft).holdings@,
        final(draft).contents@ == old(draft).contents@,
        identifier_input_views(final(draft).identifiers@) == append_identifiers(
            identifier_input_views(old(draft).identifiers@),
            identifier_input_views(found.identifiers@),
        ),
        row_views(final(draft).contributors@) == append_absent(
            row_views(old(draft).contributors@),
            row_views(found.contributors@),
        ),
        texts(final(draft).links@) == append_absent(texts(old(draft).links@), texts(found.links@)),
{
    let PublicationRawInput { title, publisher, year, identifiers, contributors, links, .. } =
        found;
    fill(&mut draft.title, title);
    fill(&mut draft.publisher, publisher);
    fill(&mut draft.year, year);
    add_identifiers(&mut draft.identifiers, identifiers);
    add_contributors(&mut draft.contributors, contributors);
    add_links(&mut draft.links, links);
}

fn fill(field: &mut String, found: String)
    ensures
        final(field)@ == filled(old(field)@, found@),
{
    let trimmed = trim(field.as_str());
    if trimmed.as_str().is_empty() {
        *field = found;
    }
}

/// An identifier's canonical form, or None when it does not parse and so can never match another
fn normalized_input(raw: &IdentifierRawInput) -> (r: Option<(Kind, Normalized)>)
    ensures
        r matches Some(p) ==> identifier_key(identifier_input_view(*raw)) == Some((p.0, p.1@)),
        r is None ==> identifier_key(identifier_input_view(*raw)) is None,
{
    let kind = match Kind::from_name(raw.kind.as_str()) {
        Ok(kind) => kind,
        Err(_) => return None,
    };
    match identifier::normalize(kind, raw.value.as_str()) {
        Ok(value) => Some((kind, value)),
        Err(_) => None,
    }
}

/// Some identifier of `existing` has the canonical form of `raw`.
fn identifier_already_present(existing: &Vec<IdentifierRawInput>, raw: &IdentifierRawInput) -> (r:
    bool)
    ensures
        r == identifier_present(identifier_input_views(existing@), identifier_input_view(*raw)),
{
    let ghost views = identifier_input_views(existing@);
    let ghost x = identifier_input_view(*raw);
    let found = match normalized_input(raw) {
        Some(found) => found,
        None => return false,
    };
    let mut j: usize = 0;
    while j < existing.len()
        invariant
            j <= existing.len(),
            views == identifier_input_views(existing@),
            x == identifier_input_view(*raw),
            identifier_key(x) == Some((found.0, found.1@)),
            forall|k: int| 0 <= k < j ==> #[trigger] identifier_key(views[k]) != identifier_key(x),
        decreases existing.len() - j,
    {
        assert(views[j as int] == identifier_input_view(existing@[j as int]));
        if let Some(current) = normalized_input(&existing[j]) {
            if current.0 == found.0 && str_eq(current.1.as_str(), found.1.as_str()) {
                assert(identifier_key(views[j as int]) == identifier_key(x));
                return true;
            }
        }
        j = j + 1;
    }
    false
}

fn add_identifiers(list: &mut Vec<IdentifierRawInput>, found: Vec<IdentifierRawInput>)
    ensures
        identifier_input_views(final(list)@) == append_identifiers(
            identifier_input_views(old(list)@),
            identifier_input_views(found@),
        ),
{
    let ghost all = identifier_input_views(found@);
    let ghost goal = append_identifiers(identifier_input_views(list@), all);
    let mut i: usize = 0;
    assert(all.skip(0) =~= all);
    while i < found.len()
        invariant
            i <= found.len(),
            all == identifier_input_views(found@),
            goal == append_identifiers(identifier_input_views(list@), all.skip(i as int)),
        decreases found.len() - i,
    {
        let ghost before = identifier_input_views(list@);
        assert(all.skip(i as int)[0] == all[i as int]);
        assert(all.skip(i as int).drop_first() =~= all.skip(i + 1));
        if !identifier_already_present(list, &found[i]) {
            list.push(found[i].clone());
            assert(identifier_input_views(list@) =~= before.push(all[i as int]));
        }
        i = i + 1;
    }
    assert(all.skip(found.len() as int) =~= Seq::<(Seq<char>, Seq<char>)>::empty());
}

fn holds_contributor(list: &Vec<ContributorInput>, c: &ContributorInput) -> (r: bool)
    ensures
        r == row_views(list@).contains(row_view(*c)),
{
    let ghost views = row_views(list@);
    let mut j: usize = 0;
    while j < list.len()
        invariant
            j <= list.len(),
            views == row_views(list@),
            forall|k: int| 0 <= k < j ==> views[k] != row_view(*c),
        decreases list.len() - j,
    {
        if str_eq(list[j].name.as_str(), c.name.as_str()) && str_eq(
            list[j].role.as_str(),
            c.role.as_str(),
        ) {
            assert(views[j as int] == row_view(*c));
            return true;
        }
        j = j + 1;
    }
    false
}

fn add_contributors(list: &mut Vec<ContributorInput>, found: Vec<ContributorInput>)
    ensures
        row_views(final(list)@) == append_absent(row_views(old(list)@), row_views(found@)),
{
    let ghost all = row_views(found@);
    let ghost goal = append_absent(row_views(list@), all);
    let mut i: usize = 0;
    assert(all.skip(0) =~= all);
    while i < found.len()
        invariant
            i <= found.len(),
            all == row_views(found@),
            goal == append_absent(row_views(list@), all.skip(i as int)),
        decreases found.len() - i,
    {
        let ghost before = row_views(list@);
        assert(all.skip(i as int)[0] == all[i as int]);
        assert(all.skip(i as int).drop_first() =~= all.skip(i + 1));
        if !holds_contributor(list, &found[i]) {
            list.push(found[i].clone());
            assert(row_views(list@) =~= before.push(all[i as int]));
        }
        i = i + 1;
    }
    assert(all.skip(found.len() as int) =~= Seq::<(Seq<char>, Seq<char>)>::empty());
}

fn holds_link(list: &Vec<String>, link: &String) -> (r: bool)
    ensures
        r == texts(list@).contains(link@),
{
    let ghost views = texts(list@);
    let mut j: usize = 0;
    while j < list.len()
        invariant
            j <= list.len(),
            views == texts(list@),
            forall|k: int| 0 <= k < j ==> views[k] != link@,
        decreases list.len() - j,
    {
        if str_eq(list[j].as_str(), link.as_str()) {
            assert(views[j as int] == link@);
            return true;
        }
        j = j + 1;
    }
    false
}

fn add_links(list: &mut Vec<String>, found: Vec<String>)
    ensures
        texts(final(list)@) == append_absent(texts(old(list)@), texts(found@)),
{
    let ghost all = texts(found@);
    let ghost goal = append_absent(texts(list@), all);
    let mut i: usize = 0;
    assert(all.skip(0) =~= all);
    while i < found.len()
        invariant
            i <= found.len(),
            all == texts(found@),
            goal == append_absent(texts(list@), all.skip(i as int)),
        decreases found.len() - i,
    {
        let ghost before = texts(list@);
        assert(all.skip(i as int)[0] == all[i as int]);
        assert(all.skip(i as int).drop_first() =~= all.skip(i + 1));
        if !holds_link(list, &found[i]) {
            list.push(found[i].clone());
            assert(texts(list@) =~= before.push(all[i as int]));
        }
        i = i + 1;
    }
    assert(all.skip(found.len() as int) =~= Seq::<Seq<char>>::empty());
}


/// Adding what was found never disturbs the list: its own values stay at its front in order,
/// every found value ends up in it, nothing else does, and a list without repeats gets none.
pub proof fn lemma_append_absent<T>(acc: Seq<T>, found: Seq<T>)
    ensures
        append_absent(acc, found).len() >= acc.len(),
        append_absent(acc, found).take(acc.len() as int) == acc,
        forall|x: T| found.contains(x) ==> #[trigger] append_absent(acc, found).contains(x),
        forall|x: T|
            #[trigger] append_absent(acc, found).contains(x) ==> acc.contains(x) || found.contains(
                x,
            ),
        acc.no_duplicates() ==> append_absent(acc, found).no_duplicates(),
    decreases found.len(),
{
    if found.len() > 0 {
        let f = found[0];
        let next = if acc.contains(f) {
            acc
        } else {
            acc.push(f)
        };
        lemma_append_absent(next, found.drop_first());
        let res = append_absent(next, found.drop_first());
        assert(res == append_absent(acc, found));
        assert(next.take(acc.len() as int) =~= acc);
        assert(res.take(acc.len() as int) =~= res.take(next.len() as int).take(acc.len() as int));
        assert(next.contains(f)) by {
            if !acc.contains(f) {
                assert(next[acc.len() as int] == f);
            }
        }
        assert forall|x: T| found.contains(x) implies #[trigger] res.contains(x) by {
            if x == f {
                let i = choose|i: int| 0 <= i < next.len() && next[i] == f;
                assert(res.take(next.len() as int)[i] == f);
                assert(res[i] == f);
            } else {
                let i = choose|i: int| 0 <= i < found.len() && found[i] == x;
                assert(found.drop_first()[i - 1] == x);
            }
        }
        assert forall|x: T| #[trigger] res.contains(x) implies acc.contains(x) || found.contains(x) by {
            if next.contains(x) && !acc.contains(x) {
                assert(found[0] == x);
            }
            if found.drop_first().contains(x) {
                let i = choose|i: int| 0 <= i < found.drop_first().len() && found.drop_first()[i]
                    == x;
                assert(found[i + 1] == x);
            }
        }
        if acc.no_duplicates() && !acc.contains(f) {
            assert(next.no_duplicates()) by {
                assert forall|i: int, j: int|
                    0 <= i < next.len() && 0 <= j < next.len() && i != j implies next[i]
                    != next[j] by {
                    if i == acc.len() as int {
                        assert(next[j] == acc[j]);
                    } else if j == acc.len() as int {
                        assert(next[i] == acc[i]);
                    }
                }
            }
        }
    }
}

/// Found identifiers never disturb the list either: its own stay at its front in order, and
/// every found one ends up in it or matches one of it by canonical form.
pub proof fn lemma_append_identifiers(
    acc: Seq<(Seq<char>, Seq<char>)>,
    found: Seq<(Seq<char>, Seq<char>)>,
)
    ensures
        append_identifiers(acc, found).len() >= acc.len(),
        append_identifiers(acc, found).take(acc.len() as int) == acc,
        forall|k: int|
            0 <= k < found.len() ==> append_identifiers(acc, found).contains(#[trigger] found[k])
                || identifier_present(append_identifiers(acc, found), found[k]),
    decreases found.len(),
{
    if found.len() > 0 {
        let f = found[0];
        let next = if identifier_present(acc, f) {
            acc
        } else {
            acc.push(f)
        };
        lemma_append_identifiers(next, found.drop_first());
        let res = append_identifiers(next, found.drop_first());
        assert(next.take(acc.len() as int) =~= acc);
        assert(res.take(acc.len() as int) =~= res.take(next.len() as int).take(acc.len() as int));
        assert forall|k: int| 0 <= k < found.len() implies res.contains(#[trigger] found[k])
            || identifier_present(res, found[k]) by {
            if k == 0 {
                if identifier_present(acc, f) {
                    let j = choose|j: int|
                        0 <= j < acc.len() && #[trigger] identifier_key(acc[j]) == identifier_key(
                            f,
                        );
                    assert(res.take(next.len() as int)[j] == acc[j]);
                    assert(res[j] == acc[j]);
                    assert(identifier_key(res[j]) == identifier_key(f));
                } else {
                    assert(res.take(next.len() as int)[acc.len() as int] == f);
                    assert(res[acc.len() as int] == f);
                }
            } else {
                assert(found.drop_first()[k - 1] == found[k]);
            }
        }
    }
}

/// A field that holds text keeps it, whatever was found.
pub proof fn lemma_filled_keeps_text(field: Seq<char>, found: Seq<char>)
    requires
        trim_seq(field).len() > 0,
    ensures
        filled(field, found) == field,
{
}

} // verus!
