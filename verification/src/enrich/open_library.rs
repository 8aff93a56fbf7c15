//! Open Library's records, and the draft an edition becomes.

use vstd::prelude::*;
use std::collections::HashMap;

use crate::identifier::{self, Kind, normalized};
use crate::import::row_views;
use crate::publication_form::ContributorRow;
use crate::raw_input::{
    ContributorInput, IdentifierRawInput, PublicationRawInput, identifier_input_views, texts,
};
use crate::text::{
    chars_of, concat, digit_run_len, is_ascii_digit, is_digit, lemma_digit_run_len,
    lemma_digit_run_len_bound, owned, slice_chars, str_eq, string_of,
};

verus! {

/// One printing of a book, as Open Library describes it.
#[derive(Debug, PartialEq, Eq)]
pub struct Edition {
    /// Open Library's id for the edition, such as "OL7636066M"
    pub olid: String,
    pub title: String,
    pub subtitle: Option<String>,
    /// The ids of its authors' records
    pub authors: Vec<String>,
    pub contributions: Vec<String>,
    pub by_statement: Option<String>,
    pub publishers: Vec<String>,
    /// Free text, such as "July 1, 1987"
    pub publish_date: Option<String>,
    pub isbn_10: Vec<String>,
    pub isbn_13: Vec<String>,
    pub number_of_pages: Option<u32>,
    pub covers: Vec<i64>,
    /// The ids of the works it prints
    pub works: Vec<String>,
}

/// A person, as Open Library describes them.
#[derive(Debug, PartialEq, Eq)]
pub struct Author {
    pub olid: String,
    pub name: String,
    pub personal_name: Option<String>,
    pub alternate_names: Vec<String>,
    pub birth_date: Option<String>,
    pub death_date: Option<String>,
    /// The person's ids elsewhere, by the name of the site
    pub remote_ids: HashMap<String, String>,
}

/// A work a title search found, with the edition it matched, if any.
pub struct WorkHit {
    /// Open Library's id for the work, such as "OL1258206W"
    pub olid: String,
    pub title: String,
    pub subtitle: Option<String>,
    pub authors: Vec<Author>,
    pub first_publish_year: Option<i32>,
    pub edition: Option<Edition>,
}

pub open spec fn edition_url(olid: Seq<char>) -> Seq<char> {
    "https://openlibrary.org/books/"@ + olid
}

impl Edition {
    /// The edition's page on Open Library.
    pub fn url(&self) -> (r: String)
        ensures
            r@ == edition_url(self.olid@),
    {
        proof {
            reveal_strlit("https://openlibrary.org/books/");
        }
        concat("https://openlibrary.org/books/", self.olid.as_str())
    }
}

/// The title a draft takes from an edition: the title, and the subtitle after a colon.
pub open spec fn full_title(title: Seq<char>, subtitle: Option<Seq<char>>) -> Seq<char> {
    match subtitle {
        Some(s) => title + ": "@ + s,
        None => title,
    }
}

/// The canonical ISBNs of these raw values in order, each once, skipping those that do not
/// normalize.
pub open spec fn isbn_values(acc: Seq<Seq<char>>, raws: Seq<Seq<char>>) -> Seq<Seq<char>>
    decreases raws.len(),
{
    if raws.len() == 0 {
        acc
    } else {
        let next = match normalized(Kind::Isbn, raws[0]) {
            Ok(n) => if acc.contains(n) {
                acc
            } else {
                acc.push(n)
            },
            Err(_) => acc,
        };
        isbn_values(next, raws.drop_first())
    }
}

/// The first run of exactly four ASCII digits in a free-text date, where runs are what lies
/// between the characters that are not ASCII digits.
pub open spec fn year_in(s: Seq<char>) -> Option<Seq<char>>
    decreases s.len(),
{
    let n = digit_run_len(s);
    if n == 4 {
        Some(s.take(4))
    } else if n >= s.len() || n < 0 {
        None
    } else {
        year_in(s.skip(n + 1))
    }
}

/// The first run of exactly four ASCII digits in a free-text date
pub fn year(publish_date: &str) -> (r: Option<String>)
    ensures
        r matches Some(y) ==> year_in(publish_date@) == Some(y@),
        r is None ==> year_in(publish_date@) is None,
{
    let v = chars_of(publish_date);
    let mut start: usize = 0;
    assert(v@.skip(0) =~= v@);
    while start <= v.len()
        invariant
            start <= v.len() + 1,
            v@ == publish_date@,
            start <= v.len() ==> year_in(v@) == year_in(v@.skip(start as int)),
            start > v.len() ==> year_in(v@) is None,
        decreases v.len() + 1 - start,
    {
        let mut end = start;
        while end < v.len() && is_ascii_digit(v[end])
            invariant
                start <= end <= v.len(),
                forall|k: int| start <= k < end ==> is_digit(#[trigger] v@[k]),
            decreases v.len() - end,
        {
            end = end + 1;
        }
        let ghost rest = v@.skip(start as int);
        proof {
            assert forall|k: int| 0 <= k < end - start implies is_digit(#[trigger] rest[k]) by {
                assert(rest[k] == v@[start + k]);
            }
            if end < v.len() {
                assert(rest[end - start] == v@[end as int]);
            }
            lemma_digit_run_len(rest, end - start);
        }
        if end - start == 4 {
            let run = slice_chars(&v, start, end);
            assert(run@ =~= rest.take(4));
            return Some(string_of(&run));
        }
        if end == v.len() {
            return None;
        }
        assert(rest.skip(end - start + 1) =~= v@.skip(end + 1));
        start = end + 1;
    }
    None
}

/// Splitting the raw values anywhere gives the same ISBNs.
proof fn lemma_isbn_values_append(acc: Seq<Seq<char>>, a: Seq<Seq<char>>, b: Seq<Seq<char>>)
    ensures
        isbn_values(acc, a + b) == isbn_values(isbn_values(acc, a), b),
    decreases a.len(),
{
    if a.len() == 0 {
        assert(a + b =~= b);
    } else {
        assert((a + b).drop_first() =~= a.drop_first() + b);
        assert((a + b)[0] == a[0]);
        let next = match normalized(Kind::Isbn, a[0]) {
            Ok(n) => if acc.contains(n) {
                acc
            } else {
                acc.push(n)
            },
            Err(_) => acc,
        };
        lemma_isbn_values_append(next, a.drop_first(), b);
    }
}

/// Add the canonical form of each raw value that normalizes and is not listed yet.
fn add_isbns(values: &mut Vec<String>, raws: &Vec<String>)
    ensures
        texts(final(values)@) == isbn_values(texts(old(values)@), texts(raws@)),
{
    let ghost all = texts(raws@);
    let ghost goal = isbn_values(texts(values@), all);
    let mut i: usize = 0;
    assert(all.skip(0) =~= all);
    while i < raws.len()
        invariant
            i <= raws.len(),
            all == texts(raws@),
            goal == isbn_values(texts(values@), all.skip(i as int)),
        decreases raws.len() - i,
    {
        let raw = &raws[i];
        assert(raw@ == all[i as int]);
        assert(all.skip(i as int)[0] == all[i as int]);
        assert(all.skip(i as int).drop_first() =~= all.skip(i + 1));
        let ghost before = texts(values@);
        // Open Library lists an ISBN-10 and ISBN-13 for the same printing; normalization makes them
        // one identifier
        if let Ok(n) = identifier::normalize(Kind::Isbn, raw.as_str()) {
            if !holds_text(values, n.as_str()) {
                values.push(owned(n.as_str()));
                assert(texts(values@) =~= before.push(n@));
            }
        }
        i = i + 1;
    }
    assert(all.skip(raws.len() as int) =~= Seq::<Seq<char>>::empty());
}

/// The canonical ISBNs of an edition: those of its ISBN-13 list, then those of its ISBN-10 list.
pub open spec fn edition_isbns(edition: Edition) -> Seq<Seq<char>> {
    isbn_values(seq![], texts(edition.isbn_13@) + texts(edition.isbn_10@))
}

/// The ISBNs of an edition, ISBN-13 first, canonical and each once.
fn isbns(edition: &Edition) -> (r: Vec<IdentifierRawInput>)
    ensures
        identifier_input_views(r@) == edition_isbns(*edition).map_values(
            |v: Seq<char>| (Kind::Isbn.name(), v),
        ),
{
    let mut values: Vec<String> = Vec::new();
    assert(texts(values@) =~= Seq::<Seq<char>>::empty());
    add_isbns(&mut values, &edition.isbn_13);
    add_isbns(&mut values, &edition.isbn_10);
    proof {
        lemma_isbn_values_append(seq![], texts(edition.isbn_13@), texts(edition.isbn_10@));
    }
    let mut r: Vec<IdentifierRawInput> = Vec::new();
    let mut j: usize = 0;
    while j < values.len()
        invariant
            j <= values.len(),
            r@.len() == j,
            forall|k: int|
                0 <= k < j ==> (#[trigger] r@[k]).kind@ == Kind::Isbn.name() && r@[k].value@
                    == values@[k]@,
        decreases values.len() - j,
    {
        r.push(IdentifierRawInput { kind: owned(Kind::Isbn.as_str()), value: values[j].clone() });
        j = j + 1;
    }
    assert(identifier_input_views(r@) =~= texts(values@).map_values(
        |v: Seq<char>| (Kind::Isbn.name(), v),
    ));
    r
}

fn holds_text(list: &Vec<String>, s: &str) -> (r: bool)
    ensures
        r == texts(list@).contains(s@),
{
    let ghost views = texts(list@);
    let mut j: usize = 0;
    while j < list.len()
        invariant
            j <= list.len(),
            views == texts(list@),
            forall|k: int| 0 <= k < j ==> views[k] != s@,
        decreases list.len() - j,
    {
        if str_eq(list[j].as_str(), s) {
            assert(views[j as int] == s@);
            return true;
        }
        j = j + 1;
    }
    false
}

/// The credits a draft takes from an edition's authors: each by name, as its author.
pub open spec fn author_credits(authors: Seq<Author>) -> Seq<(Seq<char>, Seq<char>)> {
    authors.map_values(|a: Author| (a.name@, "author"@))
}

/// Convert an Open Library [Edition] to a draft.
///
/// The title carries the subtitle after a colon; the publisher is the first listed; the year is
/// the first four-digit run of the publication date; the identifiers are the edition's ISBNs,
/// ISBN-13 first, in canonical form and each once; every author is credited as an author; the
/// edition's page is the one link. Copies and works are left empty.
pub fn to_publication(edition: &Edition, authors: &[Author]) -> (r: PublicationRawInput)
    ensures
        r.title@ == full_title(
            edition.title@,
            match edition.subtitle {
                Some(s) => Some(s@),
                None => None,
            },
        ),
        r.publisher@ == (if edition.publishers@.len() > 0 {
            edition.publishers@[0]@
        } else {
            seq![]
        }),
        r.year@ == (match edition.publish_date {
            Some(d) => match year_in(d@) {
                Some(y) => y,
                None => seq![],
            },
            None => seq![],
        }),
        r.holdings@.len() == 0,
        identifier_input_views(r.identifiers@) == edition_isbns(*edition).map_values(
            |v: Seq<char>| (Kind::Isbn.name(), v),
        ),
        row_views(r.contributors@) == author_credits(authors@),
        texts(r.links@) == seq![edition_url(edition.olid@)],
        r.contents@.len() == 0,
{
    let title = match &edition.subtitle {
        Some(subtitle) => {
            let with_colon = concat(edition.title.as_str(), ": ");
            proof {
                reveal_strlit(": ");
            }
            concat(with_colon.as_str(), subtitle.as_str())
        },
        None => edition.title.clone(),
    };
    let publisher = if edition.publishers.len() > 0 {
        edition.publishers[0].clone()
    } else {
        String::new()
    };
    let year = match &edition.publish_date {
        Some(date) => match year(date.as_str()) {
            Some(y) => y,
            None => String::new(),
        },
        None => String::new(),
    };
    let mut contributors: Vec<ContributorInput> = Vec::new();
    let mut i: usize = 0;
    while i < authors.len()
        invariant
            i <= authors.len(),
            contributors@.len() == i,
            forall|k: int|
                0 <= k < i ==> (#[trigger] contributors@[k]).name@ == authors@[k].name@
                    && contributors@[k].role@ == "author"@,
        decreases authors.len() - i,
    {
        proof {
            reveal_strlit("author");
        }
        contributors.push(ContributorRow { name: authors[i].name.clone(), role: owned("author") });
        i = i + 1;
    }
    assert(row_views(contributors@) =~= author_credits(authors@));
    let links = vec![edition.url()];
    assert(texts(links@) =~= seq![edition_url(edition.olid@)]);
    PublicationRawInput {
        title,
        publisher,
        year,
        holdings: Vec::new(),
        identifiers: isbns(edition),
        contributors,
        links,
        contents: Vec::new(),
    }
}


/// A year found in a date is four ASCII digits that stand in it, between non-digits or its ends.
pub proof fn lemma_year_is_four_digits(s: Seq<char>)
    ensures
        year_in(s) matches Some(y) ==> y.len() == 4 && crate::text::all_digits(y) && exists|i: int|
            0 <= i <= s.len() - 4 && #[trigger] s.subrange(i, i + 4) == y && (i == 0 || !is_digit(
                s[i - 1],
            )) && (i + 4 == s.len() || !is_digit(s[i + 4])),
    decreases s.len(),
{
    lemma_digit_run_len_bound(s);
    let n = digit_run_len(s);
    lemma_run_digits(s);
    if n == 4 {
        assert(s.subrange(0, 4) =~= s.take(4));
        assert(crate::text::all_digits(s.take(4)));
        let z: int = 0;
        assert(0 <= z <= s.len() - 4 && s.subrange(z, z + 4) == s.take(4) && (z == 0 || !is_digit(
            s[z - 1],
        )) && (z + 4 == s.len() || !is_digit(s[z + 4])));
    } else if n < s.len() && n >= 0 {
        let t = s.skip(n + 1);
        lemma_year_is_four_digits(t);
        assert(year_in(s) == year_in(t));
        if let Some(y) = year_in(t) {
            let i = choose|i: int|
                0 <= i <= t.len() - 4 && #[trigger] t.subrange(i, i + 4) == y && (i == 0
                    || !is_digit(t[i - 1])) && (i + 4 == t.len() || !is_digit(t[i + 4]));
            let j = i + n + 1;
            assert(s.subrange(j, j + 4) =~= t.subrange(i, i + 4));
            if i == 0 {
                assert(s[j - 1] == s[n]);
            } else {
                assert(s[j - 1] == t[i - 1]);
            }
            if i + 4 < t.len() {
                assert(s[j + 4] == t[i + 4]);
            }
            assert(0 <= j <= s.len() - 4 && s.subrange(j, j + 4) == y && (j == 0 || !is_digit(
                s[j - 1],
            )) && (j + 4 == s.len() || !is_digit(s[j + 4])));
        }
    }
}

/// The run at the start of a string is made of digits and ends at a non-digit or the end.
proof fn lemma_run_digits(s: Seq<char>)
    ensures
        forall|k: int| 0 <= k < digit_run_len(s) ==> is_digit(#[trigger] s[k]),
        digit_run_len(s) < s.len() ==> !is_digit(s[digit_run_len(s)]),
    decreases s.len(),
{
    lemma_digit_run_len_bound(s);
    if s.len() > 0 && is_digit(s[0]) {
        lemma_run_digits(s.drop_first());
        lemma_digit_run_len_bound(s.drop_first());
        assert forall|k: int| 0 <= k < digit_run_len(s) implies is_digit(#[trigger] s[k]) by {
            if k > 0 {
                assert(s[k] == s.drop_first()[k - 1]);
            }
        }
        if digit_run_len(s) < s.len() {
            assert(s[digit_run_len(s)] == s.drop_first()[digit_run_len(s) - 1]);
        }
    }
}

/// Listing an edition's ISBNs keeps what was already listed, in front and in order, and lists
/// the canonical form of every raw ISBN that normalizes.
pub proof fn lemma_isbn_values_complete(acc: Seq<Seq<char>>, raws: Seq<Seq<char>>)
    ensures
        isbn_values(acc, raws).len() >= acc.len(),
        isbn_values(acc, raws).take(acc.len() as int) == acc,
        forall|k: int|
            0 <= k < raws.len() ==> (normalized(Kind::Isbn, #[trigger] raws[k]) matches Ok(n)
                ==> isbn_values(acc, raws).contains(n)),
    decreases raws.len(),
{
    if raws.len() > 0 {
        let rest = raws.drop_first();
        let next = match normalized(Kind::Isbn, raws[0]) {
            Ok(n) => if acc.contains(n) {
                acc
            } else {
                acc.push(n)
            },
            Err(_) => acc,
        };
        lemma_isbn_values_complete(next, rest);
        let res = isbn_values(next, rest);
        assert(res == isbn_values(acc, raws));
        assert(next.take(acc.len() as int) =~= acc);
        assert(res.take(acc.len() as int) =~= acc) by {
            assert forall|i: int| 0 <= i < acc.len() implies #[trigger] res.take(acc.len() as int)[i]
                == acc[i] by {
                assert(res.take(next.len() as int)[i] == next[i]);
            }
        }
        assert forall|k: int|
            0 <= k < raws.len() implies (normalized(Kind::Isbn, #[trigger] raws[k]) matches Ok(n)
            ==> res.contains(n)) by {
            if let Ok(n) = normalized(Kind::Isbn, raws[k]) {
                if k == 0 {
                    let j = if acc.contains(n) {
                        choose|j: int| 0 <= j < acc.len() && acc[j] == n
                    } else {
                        acc.len() as int
                    };
                    assert(next[j] == n);
                    assert(res.take(next.len() as int)[j] == next[j]);
                    assert(res[j] == n);
                } else {
                    assert(raws[k] == rest[k - 1]);
                }
            }
        }
    }
}

/// The identifiers of the draft made from an edition: every ISBN it lists that normalizes, ISBN-13
/// or ISBN-10, has its canonical form among them; each is the canonical form of one of its ISBNs;
/// none occurs twice; and those of the ISBN-13 list come first.
pub proof fn lemma_edition_isbns(edition: Edition)
    ensures
        forall|k: int|
            0 <= k < edition.isbn_13@.len() ==> (normalized(
                Kind::Isbn,
                #[trigger] edition.isbn_13@[k]@,
            ) matches Ok(n) ==> edition_isbns(edition).contains(n)),
        forall|k: int|
            0 <= k < edition.isbn_10@.len() ==> (normalized(
                Kind::Isbn,
                #[trigger] edition.isbn_10@[k]@,
            ) matches Ok(n) ==> edition_isbns(edition).contains(n)),
        forall|v: Seq<char>|
            #[trigger] edition_isbns(edition).contains(v) ==> (exists|k: int|
                0 <= k < edition.isbn_13@.len() && normalized(Kind::Isbn, edition.isbn_13@[k]@)
                    == Ok::<Seq<char>, identifier::Error>(v)) || (exists|k: int|
                0 <= k < edition.isbn_10@.len() && normalized(Kind::Isbn, edition.isbn_10@[k]@)
                    == Ok::<Seq<char>, identifier::Error>(v)),
        edition_isbns(edition).no_duplicates(),
        edition_isbns(edition).take(isbn_values(seq![], texts(edition.isbn_13@)).len() as int)
            == isbn_values(seq![], texts(edition.isbn_13@)),
{
    let a = texts(edition.isbn_13@);
    let b = texts(edition.isbn_10@);
    let e: Seq<Seq<char>> = seq![];
    lemma_isbn_values_complete(e, a + b);
    lemma_isbn_values(e, a + b);
    lemma_isbn_values_append(e, a, b);
    lemma_isbn_values_complete(isbn_values(e, a), b);
    assert forall|k: int| 0 <= k < edition.isbn_13@.len() implies (normalized(
        Kind::Isbn,
        #[trigger] edition.isbn_13@[k]@,
    ) matches Ok(n) ==> edition_isbns(edition).contains(n)) by {
        assert((a + b)[k] == edition.isbn_13@[k]@);
    }
    assert forall|k: int| 0 <= k < edition.isbn_10@.len() implies (normalized(
        Kind::Isbn,
        #[trigger] edition.isbn_10@[k]@,
    ) matches Ok(n) ==> edition_isbns(edition).contains(n)) by {
        assert((a + b)[a.len() + k] == edition.isbn_10@[k]@);
    }
    assert forall|v: Seq<char>| #[trigger] edition_isbns(edition).contains(v) implies (exists|
        k: int,
    |
        0 <= k < edition.isbn_13@.len() && normalized(Kind::Isbn, edition.isbn_13@[k]@) == Ok::<
            Seq<char>,
            identifier::Error,
        >(v)) || (exists|k: int|
        0 <= k < edition.isbn_10@.len() && normalized(Kind::Isbn, edition.isbn_10@[k]@) == Ok::<
            Seq<char>,
            identifier::Error,
        >(v)) by {
        assert(!e.contains(v));
        let k = choose|k: int|
            0 <= k < (a + b).len() && normalized(Kind::Isbn, (a + b)[k]) == Ok::<
                Seq<char>,
                identifier::Error,
            >(v);
        if k < a.len() {
            assert((a + b)[k] == edition.isbn_13@[k]@);
        } else {
            assert((a + b)[k] == edition.isbn_10@[k - a.len()]@);
        }
    }
}

/// An edition's ISBNs hold each canonical value once, and only canonical values of its raw ones.
pub proof fn lemma_isbn_values(acc: Seq<Seq<char>>, raws: Seq<Seq<char>>)
    ensures
        acc.no_duplicates() ==> isbn_values(acc, raws).no_duplicates(),
        forall|v: Seq<char>|
            #[trigger] isbn_values(acc, raws).contains(v) ==> acc.contains(v) || exists|k: int|
                0 <= k < raws.len() && normalized(Kind::Isbn, raws[k]) == Ok::<
                    Seq<char>,
                    identifier::Error,
                >(v),
    decreases raws.len(),
{
    if raws.len() > 0 {
        let next = match normalized(Kind::Isbn, raws[0]) {
            Ok(n) => if acc.contains(n) {
                acc
            } else {
                acc.push(n)
            },
            Err(_) => acc,
        };
        lemma_isbn_values(next, raws.drop_first());
        let res = isbn_values(next, raws.drop_first());
        assert(res == isbn_values(acc, raws));
        if acc.no_duplicates() {
            assert(next.no_duplicates()) by {
                if let Ok(n) = normalized(Kind::Isbn, raws[0]) {
                    if !acc.contains(n) {
                        assert forall|i: int, j: int|
                            0 <= i < next.len() && 0 <= j < next.len() && i != j implies next[i]
                            != next[j] by {
                            if i == acc.len() as int {
                                assert(next[j] == acc[j]);
                            } else if j == acc.len() as int {
                                assert(next[i] == acc[i]);
                            }
                        }
                    }
                }
            }
        }
        assert forall|v: Seq<char>| #[trigger] res.contains(v) implies acc.contains(v) || exists|
            k: int,
        |
            0 <= k < raws.len() && normalized(Kind::Isbn, raws[k]) == Ok::<
                Seq<char>,
                identifier::Error,
            >(v) by {
            if next.contains(v) && !acc.contains(v) {
                assert(normalized(Kind::Isbn, raws[0]) == Ok::<Seq<char>, identifier::Error>(v));
            }
            if exists|k: int|
                0 <= k < raws.drop_first().len() && normalized(Kind::Isbn, raws.drop_first()[k])
                    == Ok::<Seq<char>, identifier::Error>(v) {
                let k = choose|k: int|
                    0 <= k < raws.drop_first().len() && normalized(
                        Kind::Isbn,
                        raws.drop_first()[k],
                    ) == Ok::<Seq<char>, identifier::Error>(v);
                assert(raws[k + 1] == raws.drop_first()[k]);
            }
        }
    }
}

} // verus!
