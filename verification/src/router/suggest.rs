//! The dropdown suggestions of the form inputs: which field a request asks about, how many it
//! shows, and how a hit from another library is described.

use vstd::prelude::*;

use crate::enrich::open_library::{Author, WorkHit, full_title};
use crate::identifier::{self, Kind, normalized};
use crate::raw_input::texts;
use crate::router::search::{
    Entity, PersonSummary, PublicationSummary, WorkSummary, describe, entity_kind, summary_lines,
};
use crate::text::{
    chars_of, concat, decimal, decimal_i64, join, join_strings, owned, slice_chars, split_whitespace,
    str_eq, string_of, trim, trim_seq, words,
};

verus! {

/// Where suggestions come from: the library itself, or an outside catalog.
#[derive(Debug, Clone, Copy, PartialEq, Eq, Structural)]
pub enum Source {
    Local,
    External,
}

impl Default for Source {
    fn default() -> (r: Self)
        ensures
            r == Source::Local,
    {
        Source::Local
    }
}

/// What the input has typed so far, plus what the input's neighbours need the archive to know
pub struct FieldQuery {
    pub q: String,
    /// work-number only: the composer input of the same work, resolved by the archive
    pub composer: Option<String>,
    /// tag only: comma-separated tags already picked
    pub exclude: Option<String>,
    pub source: Source,
}

/// The input a suggestion request is for.
#[derive(Debug, PartialEq, Eq)]
pub enum SuggestField {
    Person,
    Work,
    /// A catalog number, narrowed to the works of a composer when one is named
    WorkNumber { composer: Option<String> },
    Publication,
    Role,
    Publisher,
    Tag,
    Key,
    TimeSignature,
    Instrumentation,
    Location,
}

/// How many the dropdown shows of entities
pub const ENTITY_LIMIT: usize = 10;

/// How many the dropdown shows of the small vocabularies narrowed by typing
pub const VOCABULARY_LIMIT: usize = 15;

impl SuggestField {
    /// The name the field goes by in a request's path.
    pub open spec fn path_name(self) -> Seq<char> {
        match self {
            SuggestField::Person => "person"@,
            SuggestField::Work => "work"@,
            SuggestField::WorkNumber { .. } => "work-number"@,
            SuggestField::Publication => "publication"@,
            SuggestField::Role => "role"@,
            SuggestField::Publisher => "publisher"@,
            SuggestField::Tag => "tag"@,
            SuggestField::Key => "key"@,
            SuggestField::TimeSignature => "time-signature"@,
            SuggestField::Instrumentation => "instrumentation"@,
            SuggestField::Location => "location"@,
        }
    }

    /// Entities get a short list; the vocabularies a longer one.
    pub open spec fn limit_of(self) -> usize {
        match self {
            SuggestField::Person | SuggestField::Work | SuggestField::WorkNumber { .. }
            | SuggestField::Publication => ENTITY_LIMIT,
            _ => VOCABULARY_LIMIT,
        }
    }

    pub fn limit(&self) -> (r: usize)
        ensures
            r == self.limit_of(),
    {
        match self {
            SuggestField::Person | SuggestField::Work | SuggestField::WorkNumber { .. }
            | SuggestField::Publication => ENTITY_LIMIT,
            _ => VOCABULARY_LIMIT,
        }
    }
}

/// The path names of the fields suggestions exist for.
pub open spec fn known_field(kind: Seq<char>) -> bool {
    ||| kind == "person"@
    ||| kind == "work"@
    ||| kind == "work-number"@
    ||| kind == "publication"@
    ||| kind == "role"@
    ||| kind == "publisher"@
    ||| kind == "tag"@
    ||| kind == "key"@
    ||| kind == "time-signature"@
    ||| kind == "instrumentation"@
    ||| kind == "location"@
}

/// The composer a catalog-number request narrows to: what the composer input holds, trimmed,
/// unless that is nothing.
pub open spec fn composer_named(composer: Option<Seq<char>>) -> Option<Seq<char>> {
    match composer {
        Some(c) => if trim_seq(c).len() > 0 {
            Some(trim_seq(c))
        } else {
            None
        },
        None => None,
    }
}

fn named_composer(composer: Option<&str>) -> (r: Option<String>)
    ensures
        match r {
            Some(c) => composer_named(
                match composer {
                    Some(s) => Some(s@),
                    None => None,
                },
            ) == Some(c@),
            None => composer_named(
                match composer {
                    Some(s) => Some(s@),
                    None => None,
                },
            ) is None,
        },
{
    match composer {
        Some(c) => {
            let t = trim(c);
            if t.as_str().is_empty() {
                None
            } else {
                Some(t)
            }
        },
        None => None,
    }
}

/// Which field a suggestion request asks about, by the kind in its path, and how many it shows.
/// None for a kind no input has, and for an outside source asked about anything but
/// publications: both are pages that do not exist.
pub fn field_request(kind: &str, composer: Option<&str>, source: Source) -> (r: Option<
    (SuggestField, usize),
>)
    ensures
        r is None <==> !known_field(kind@) || (source == Source::External && kind@
            != "publication"@),
        r matches Some((f, n)) ==> f.path_name() == kind@ && n == f.limit_of() && (f matches SuggestField::WorkNumber { composer: c } ==> match c {
            Some(c) => composer_named(
                match composer {
                    Some(s) => Some(s@),
                    None => None,
                },
            ) == Some(c@),
            None => composer_named(
                match composer {
                    Some(s) => Some(s@),
                    None => None,
                },
            ) is None,
        }),
{
    proof {
        reveal_strlit("person");
        reveal_strlit("work");
        reveal_strlit("work-number");
        reveal_strlit("publication");
        reveal_strlit("role");
        reveal_strlit("publisher");
        reveal_strlit("tag");
        reveal_strlit("key");
        reveal_strlit("time-signature");
        reveal_strlit("instrumentation");
        reveal_strlit("location");
    }
    let field = if str_eq(kind, "person") {
        SuggestField::Person
    } else if str_eq(kind, "work") {
        SuggestField::Work
    } else if str_eq(kind, "work-number") {
        SuggestField::WorkNumber { composer: named_composer(composer) }
    } else if str_eq(kind, "publication") {
        SuggestField::Publication
    } else if str_eq(kind, "role") {
        SuggestField::Role
    } else if str_eq(kind, "publisher") {
        SuggestField::Publisher
    } else if str_eq(kind, "tag") {
        SuggestField::Tag
    } else if str_eq(kind, "key") {
        SuggestField::Key
    } else if str_eq(kind, "time-signature") {
        SuggestField::TimeSignature
    } else if str_eq(kind, "instrumentation") {
        SuggestField::Instrumentation
    } else if str_eq(kind, "location") {
        SuggestField::Location
    } else {
        return None;
    };
    if source == Source::External && !str_eq(kind, "publication") {
        return None;
    }
    let limit = field.limit();
    Some((field, limit))
}

/// A hit from another library says which one it is in.
pub open spec fn located_in(secondary: Seq<char>, library_name: Seq<char>) -> Seq<char> {
    if secondary.len() == 0 {
        "in "@ + library_name
    } else {
        secondary + " in "@ + library_name
    }
}

/// A hit from another library says which one it is in.
pub fn located(secondary: &str, library_name: &str) -> (r: String)
    ensures
        r@ == located_in(secondary@, library_name@),
{
    if secondary.is_empty() {
        concat("in ", library_name)
    } else {
        let with_in = concat(secondary, " in ");
        concat(with_in.as_str(), library_name)
    }
}

/// Who a suggested record is, here or in an outside catalog.
pub enum Reference {
    Local { id: i64 },
    External {
        /// The source's display name
        source: String,
        /// The record's id within that source, such as an Open Library work OLID
        source_id: String,
    },
}

/// What a dropdown item carries for the page to fill the other inputs with.
pub enum Data {
    Person { reference: Reference, name: String },
    Work {
        reference: Reference,
        title: String,
        contributor: Option<String>,
        role: Option<String>,
        contributor_id: Option<i64>,
        numbers: Vec<String>,
        /// Whether the number a pick puts in the catalog input uses a known scheme
        recognized: Option<bool>,
    },
    Publication { reference: Reference, title: String, people: Vec<String>, year: Option<i64> },
    Tag { count: i64 },
    Plain,
}

/// One dropdown item.
pub struct FieldMatch {
    pub kind: &'static str,
    /// What goes into the input when picked
    pub value: String,
    pub exact: bool,
    /// Primary description to display (e.g., title)
    pub primary: String,
    /// Secondary description to display (e.g., author, composer)
    pub secondary: String,
    pub href: Option<String>,
    pub data: Data,
}

/// A dropdown's items.
pub struct FieldSuggestions {
    /// work-number only: whether the typed text parses as a known scheme, for the indicator
    pub recognized: Option<bool>,
    pub matches: Vec<FieldMatch>,
}


/// The first of these raw ISBNs that normalizes, in canonical form.
pub open spec fn first_isbn(raws: Seq<Seq<char>>) -> Option<Seq<char>>
    decreases raws.len(),
{
    if raws.len() == 0 {
        None
    } else {
        match normalized(Kind::Isbn, raws[0]) {
            Ok(v) => Some(v),
            Err(_) => first_isbn(raws.drop_first()),
        }
    }
}

fn first_isbn_in(raws: &Vec<String>) -> (r: Option<String>)
    ensures
        match r {
            Some(v) => first_isbn(texts(raws@)) == Some(v@),
            None => first_isbn(texts(raws@)) is None,
        },
{
    let ghost all = texts(raws@);
    let mut i: usize = 0;
    assert(all.skip(0) =~= all);
    while i < raws.len()
        invariant
            i <= raws.len(),
            all == texts(raws@),
            first_isbn(all) == first_isbn(all.skip(i as int)),
        decreases raws.len() - i,
    {
        assert(all.skip(i as int)[0] == raws@[i as int]@);
        assert(all.skip(i as int).drop_first() =~= all.skip(i + 1));
        if let Ok(n) = identifier::normalize(Kind::Isbn, raws[i].as_str()) {
            return Some(owned(n.as_str()));
        }
        i = i + 1;
    }
    assert(all.skip(i as int) =~= Seq::<Seq<char>>::empty());
    None
}

/// The ISBN a hit's edition leads with: its first that normalizes, ISBN-13 first.
pub open spec fn hit_isbn(hit: WorkHit) -> Option<Seq<char>> {
    match hit.edition {
        Some(e) => first_isbn(texts(e.isbn_13@) + texts(e.isbn_10@)),
        None => None,
    }
}

proof fn lemma_first_isbn_append(a: Seq<Seq<char>>, b: Seq<Seq<char>>)
    ensures
        first_isbn(a + b) == match first_isbn(a) {
            Some(v) => Some(v),
            None => first_isbn(b),
        },
    decreases a.len(),
{
    if a.len() == 0 {
        assert(a + b =~= b);
    } else {
        assert((a + b).drop_first() =~= a.drop_first() + b);
        assert((a + b)[0] == a[0]);
        lemma_first_isbn_append(a.drop_first(), b);
    }
}

/// The names of a hit's authors.
pub open spec fn author_names(authors: Seq<Author>) -> Seq<Seq<char>> {
    authors.map_values(|a: Author| a.name@)
}

/// A title search hit from Open Library as a dropdown item. Picking it puts the ISBN of the
/// matched edition in the input, since an ISBN goes through the entry page's lookup on submit and
/// the review page opens seeded; a hit with none puts its title.
pub fn candidate(hit: WorkHit) -> (r: FieldMatch)
    ensures
        r.kind@ == "publication"@,
        r.value@ == (match hit_isbn(hit) {
            Some(isbn) => isbn,
            None => full_title(
                hit.title@,
                match hit.subtitle {
                    Some(s) => Some(s@),
                    None => None,
                },
            ),
        }),
        !r.exact,
        r.primary@ == full_title(
            hit.title@,
            match hit.subtitle {
                Some(s) => Some(s@),
                None => None,
            },
        ),
        r.secondary@ == join(author_names(hit.authors@), ", "@),
        r.href is None,
        match r.data {
            Data::Publication { reference, title, people, year } => {
                &&& title@ == r.primary@
                &&& texts(people@) == author_names(hit.authors@)
                &&& year == (match hit.first_publish_year {
                    Some(y) => Some(y as i64),
                    None => None,
                })
                &&& match reference {
                    Reference::External { source, source_id } => source@ == "Open Library"@
                        && source_id@ == hit.olid@,
                    _ => false,
                }
            },
            _ => false,
        },
{
    let isbn = match &hit.edition {
        Some(edition) => {
            let first = match first_isbn_in(&edition.isbn_13) {
                Some(v) => Some(v),
                None => first_isbn_in(&edition.isbn_10),
            };
            proof {
                lemma_first_isbn_append(texts(edition.isbn_13@), texts(edition.isbn_10@));
            }
            first
        },
        None => None,
    };
    let title = match &hit.subtitle {
        Some(subtitle) => {
            let with_colon = concat(hit.title.as_str(), ": ");
            proof {
                reveal_strlit(": ");
            }
            concat(with_colon.as_str(), subtitle.as_str())
        },
        None => hit.title.clone(),
    };
    let mut authors: Vec<String> = Vec::new();
    let mut i: usize = 0;
    while i < hit.authors.len()
        invariant
            i <= hit.authors.len(),
            authors@.len() == i,
            forall|k: int| 0 <= k < i ==> (#[trigger] authors@[k])@ == hit.authors@[k].name@,
        decreases hit.authors.len() - i,
    {
        authors.push(hit.authors[i].name.clone());
        i = i + 1;
    }
    assert(texts(authors@) =~= author_names(hit.authors@));
    let secondary = join_strings(&authors, ", ");
    let value = match isbn {
        Some(v) => v,
        None => title.clone(),
    };
    let year = match hit.first_publish_year {
        Some(y) => Some(y as i64),
        None => None,
    };
    FieldMatch {
        kind: "publication",
        value,
        exact: false,
        primary: title.clone(),
        secondary,
        href: None,
        data: Data::Publication {
            reference: Reference::External { source: owned("Open Library"), source_id: hit.olid },
            title,
            people: authors,
            year,
        },
    }
}

/// What a dropdown item for an entity of this library puts in the input: a person's name, or a
/// title.
pub open spec fn entity_value(entity: Entity) -> Seq<char> {
    match entity {
        Entity::Person(p) => p.name@,
        Entity::Work(w) => w.title@,
        Entity::Publication(p) => p.title@,
    }
}

/// An entity of this library as a dropdown item. `recognized` is whether the work's first
/// catalog number uses a known scheme, which a title pick puts in the catalog input; the catalog
/// number parser decides it.
pub fn item(entity: Entity, exact: bool, recognized: Option<bool>) -> (r: FieldMatch)
    ensures
        r.kind@ == entity_kind(entity),
        r.value@ == entity_value(entity),
        r.exact == exact,
        (r.primary@, r.secondary@) == summary_lines(entity),
        r.href is None,
        match (entity, r.data) {
            (Entity::Person(p), Data::Person { reference, name }) => name@ == p.name@ && reference
                == (Reference::Local { id: p.id }),
            (
                Entity::Publication(p),
                Data::Publication { reference, title, people, year },
            ) => title@ == p.title@ && texts(people@) == texts(p.people@) && year == p.year
                && reference == (Reference::Local { id: p.id }),
            (
                Entity::Work(w),
                Data::Work {
                    reference,
                    title,
                    contributor,
                    role,
                    contributor_id,
                    numbers,
                    recognized: slot,
                },
            ) => {
                &&& title@ == w.title@
                &&& texts(numbers@) == texts(w.numbers@)
                &&& slot == recognized
                &&& reference == (Reference::Local { id: w.id })
                &&& match w.contributor {
                    Some(c) => contributor == Some(c.name) && role == Some(c.role)
                        && contributor_id == Some(c.person_id),
                    None => contributor is None && role is None && contributor_id is None,
                }
            },
            _ => false,
        },
{
    let (kind, primary, secondary) = describe(&entity);
    let (value, data) = match entity {
        Entity::Person(person) => (
            person.name.clone(),
            Data::Person { reference: Reference::Local { id: person.id }, name: person.name },
        ),
        Entity::Publication(publication) => (
            publication.title.clone(),
            Data::Publication {
                reference: Reference::Local { id: publication.id },
                title: publication.title,
                people: publication.people,
                year: publication.year,
            },
        ),
        Entity::Work(work) => {
            let (contributor, contributor_id, role) = match work.contributor {
                Some(person) => (Some(person.name), Some(person.person_id), Some(person.role)),
                None => (None, None, None),
            };
            (
                work.title.clone(),
                Data::Work {
                    reference: Reference::Local { id: work.id },
                    title: work.title,
                    contributor,
                    role,
                    contributor_id,
                    numbers: work.numbers,
                    recognized,
                },
            )
        },
    };
    FieldMatch { kind, value, exact, primary, secondary, href: None, data }
}


// ---------------------------------------------------------------------------------------------
// Outside searches
// ---------------------------------------------------------------------------------------------

/// Whether typed text is worth an outside title search: not an identifier, and either two words
/// or one of at least six characters.
pub open spec fn worth_searching_of(q: Seq<char>, identifier_like: bool) -> bool {
    let w = words(q);
    !identifier_like && (w.len() >= 2 || (w.len() == 1 && w[0].len() >= 6))
}

/// Whether typed text is worth an outside title search. `identifier_like` is whether the text
/// looks like an identifier, which the identifier rules decide; a lookup by identifier goes
/// elsewhere.
pub fn worth_searching(q: &str, identifier_like: bool) -> (r: bool)
    ensures
        r == worth_searching_of(q@, identifier_like),
{
    if identifier_like {
        return false;
    }
    let w = split_whitespace(q);
    assert(w@.map_values(|x: String| x@).len() == w@.len());
    if w.len() >= 2 {
        true
    } else if w.len() == 1 {
        assert(w@.map_values(|x: String| x@)[0] == w@[0]@);
        w[0].as_str().unicode_len() >= 6
    } else {
        false
    }
}

// ---------------------------------------------------------------------------------------------
// Library suggestions
// ---------------------------------------------------------------------------------------------

/// A catalog number a work was suggested by, with what reading it gives: the two lines the item
/// shows for it, and whether the number uses a known scheme, which the catalog number parser
/// decides.
pub struct NumberPick {
    pub number: String,
    pub primary: String,
    pub secondary: String,
    pub recognized: bool,
}

/// What the library suggested.
pub enum Suggested {
    Person(PersonSummary),
    Publication(PublicationSummary),
    /// A work, found by its title or, for a number input, by one of its catalog numbers.
    /// `recognized` is whether the work's first catalog number uses a known scheme.
    Work { work: WorkSummary, recognized: Option<bool>, number: Option<NumberPick> },
    Tag { name: String, count: i64 },
    Role(String),
    Publisher(String),
    Key(String),
    TimeSignature(String),
    Instrumentation(String),
    Location(String),
}

/// One suggestion, and whether it matches the typed text exactly.
pub struct Suggestion {
    pub item: Suggested,
    pub exact: bool,
}

/// The plain word a vocabulary suggestion carries.
pub open spec fn plain_word(item: Suggested) -> Option<Seq<char>> {
    match item {
        Suggested::Role(v) | Suggested::Publisher(v) | Suggested::Key(v) | Suggested::TimeSignature(
            v,
        ) | Suggested::Instrumentation(v) | Suggested::Location(v) => Some(v@),
        _ => None,
    }
}

/// What a work item says of its catalog number's scheme, and None for any other item.
pub open spec fn work_slot(d: Data) -> Option<bool> {
    match d {
        Data::Work { recognized, .. } => recognized,
        _ => None,
    }
}

/// One suggestion as a dropdown item: an entity as [item] shows it, a work found by a number
/// leading with that number, a tag with how often it is used, and a word as itself.
pub fn shown(suggestion: Suggestion) -> (r: FieldMatch)
    ensures
        r.exact == suggestion.exact,
        r.href is None,
        match suggestion.item {
            Suggested::Person(p) => r.kind@ == "person"@ && r.value@ == p.name@ && (
            r.primary@,
            r.secondary@,
            ) == summary_lines(Entity::Person(p)),
            Suggested::Publication(p) => r.kind@ == "publication"@ && r.value@ == p.title@ && (
            r.primary@,
            r.secondary@,
            ) == summary_lines(Entity::Publication(p)),
            Suggested::Work { work, recognized, number } => {
                &&& r.kind@ == "work"@
                &&& r.data is Work
                &&& work_slot(r.data) == match number {
                    None => recognized,
                    Some(pick) => Some(pick.recognized),
                }
                &&& match number {
                    None => r.value@ == work.title@ && (r.primary@, r.secondary@) == summary_lines(
                        Entity::Work(work),
                    ),
                    Some(pick) => r.value@ == pick.number@ && r.primary@ == pick.primary@
                        && r.secondary@ == pick.secondary@,
                }
            },
            Suggested::Tag { name, count } => {
                &&& r.kind@ == "tag"@
                &&& r.value@ == name@
                &&& r.primary@ == name@
                &&& r.secondary@ == decimal(count as int) + " tagged"@
                &&& r.data == (Data::Tag { count })
            },
            _ => {
                &&& r.kind@ == "plain"@
                &&& plain_word(suggestion.item) == Some(r.value@)
                &&& r.primary@ == r.value@
                &&& r.secondary@.len() == 0
                &&& r.data is Plain
            },
        },
{
    let exact = suggestion.exact;
    match suggestion.item {
        Suggested::Person(person) => item(Entity::Person(person), exact, None),
        Suggested::Publication(publication) => item(Entity::Publication(publication), exact, None),
        Suggested::Work { work, recognized, number: None } => item(
            Entity::Work(work),
            exact,
            recognized,
        ),
        // A number input puts the matched number in the input and leads with it, rather than the
        // title a work input would lead with
        Suggested::Work { work, recognized, number: Some(pick) } => {
            let mut shown = item(Entity::Work(work), exact, recognized);
            shown.value = pick.number;
            shown.primary = pick.primary;
            shown.secondary = pick.secondary;
            let data = match shown.data {
                Data::Work {
                    reference,
                    title,
                    contributor,
                    role,
                    contributor_id,
                    numbers,
                    recognized: _,
                } => Data::Work {
                    reference,
                    title,
                    contributor,
                    role,
                    contributor_id,
                    numbers,
                    recognized: Some(pick.recognized),
                },
                other => other,
            };
            shown.data = data;
            shown
        },
        Suggested::Tag { name, count } => {
            let digits = decimal_i64(count);
            FieldMatch {
                kind: "tag",
                value: name.clone(),
                exact,
                primary: name,
                secondary: concat(digits.as_str(), " tagged"),
                href: None,
                data: Data::Tag { count },
            }
        },
        Suggested::Role(value) | Suggested::Publisher(value) | Suggested::Key(value)
        | Suggested::TimeSignature(value) | Suggested::Instrumentation(value)
        | Suggested::Location(value) => FieldMatch {
            kind: "plain",
            value: value.clone(),
            exact,
            primary: value,
            secondary: String::new(),
            href: None,
            data: Data::Plain,
        },
    }
}

/// The pieces of `s` between its commas, as `str::split(',')` gives them.
pub open spec fn comma_pieces(s: Seq<char>) -> Seq<Seq<char>>
    decreases s.len(),
{
    if s.len() == 0 {
        seq![seq![]]
    } else {
        let rest = comma_pieces(s.drop_last());
        if s.last() == ',' {
            rest.push(seq![])
        } else {
            rest.update(rest.len() - 1, rest.last().push(s.last()))
        }
    }
}

proof fn lemma_comma_pieces_nonempty(s: Seq<char>)
    ensures
        comma_pieces(s).len() >= 1,
    decreases s.len(),
{
    if s.len() > 0 {
        lemma_comma_pieces_nonempty(s.drop_last());
    }
}

/// The tags already picked, from the comma-separated list an input sends: each trimmed.
pub fn picked_tags(exclude: &str) -> (r: Vec<String>)
    ensures
        texts(r@) == picked_pieces(exclude@),
{
    let v = chars_of(exclude);
    let mut raw: Vec<String> = Vec::new();
    let mut start: usize = 0;
    let mut i: usize = 0;
    assert(v@.take(0) =~= Seq::<char>::empty());
    assert(texts(raw@).push(v@.subrange(0, 0)) =~= seq![Seq::<char>::empty()]);
    while i < v.len()
        invariant
            start <= i <= v.len(),
            v@ == exclude@,
            comma_pieces(v@.take(i as int)) == texts(raw@).push(v@.subrange(start as int, i as int)),
        decreases v.len() - i,
    {
        let ghost before = texts(raw@);
        assert(v@.take(i + 1).drop_last() =~= v@.take(i as int));
        assert(v@.take(i + 1).last() == v@[i as int]);
        let ghost s0 = start;
        if v[i] == ',' {
            let piece = slice_chars(&v, start, i);
            raw.push(string_of(&piece));
            start = i + 1;
            assert(texts(raw@) =~= before.push(v@.subrange(s0 as int, i as int)));
            assert(v@.subrange(start as int, i + 1) =~= Seq::<char>::empty());
        } else {
            assert(v@.subrange(start as int, i + 1) =~= v@.subrange(start as int, i as int).push(
                v@[i as int],
            ));
        }
        i = i + 1;
    }
    assert(v@.take(v.len() as int) =~= v@);
    let last = slice_chars(&v, start, v.len());
    raw.push(string_of(&last));
    let ghost all = texts(raw@);
    assert(all =~= comma_pieces(exclude@));
    let mut r: Vec<String> = Vec::new();
    let mut j: usize = 0;
    while j < raw.len()
        invariant
            j <= raw.len(),
            all == texts(raw@),
            r@.len() == j,
            forall|k: int| 0 <= k < j ==> (#[trigger] r@[k])@ == trim_seq(all[k]),
        decreases raw.len() - j,
    {
        r.push(trim(raw[j].as_str()));
        j = j + 1;
    }
    assert(texts(r@) =~= all.map_values(|p: Seq<char>| trim_seq(p)));
    r
}

/// A suggestion stays unless it is a tag already picked.
pub open spec fn unpicked(s: Suggestion, picked: Seq<Seq<char>>) -> bool {
    match s.item {
        Suggested::Tag { name, .. } => !picked.contains(name@),
        _ => true,
    }
}

/// The suggestions that stay, in order.
pub open spec fn unpicked_of(items: Seq<Suggestion>, picked: Seq<Seq<char>>) -> Seq<Suggestion>
    decreases items.len(),
{
    if items.len() == 0 {
        seq![]
    } else {
        let rest = unpicked_of(items.drop_last(), picked);
        if unpicked(items.last(), picked) {
            rest.push(items.last())
        } else {
            rest
        }
    }
}

/// The name a tag suggestion carries; None for any other suggestion.
pub open spec fn tag_name(s: Suggestion) -> Option<Seq<char>> {
    match s.item {
        Suggested::Tag { name, .. } => Some(name@),
        _ => None,
    }
}

/// Leaving picked tags out keeps no tag whose name was picked, keeps nothing that was not
/// suggested, and keeps every other suggestion.
pub proof fn lemma_unpicked_of_keeps_the_rest(items: Seq<Suggestion>, picked: Seq<Seq<char>>)
    ensures
        unpicked_of(items, picked).len() <= items.len(),
        forall|i: int|
            0 <= i < unpicked_of(items, picked).len() ==> (tag_name(
                #[trigger] unpicked_of(items, picked)[i],
            ) matches Some(n) ==> !picked.contains(n)),
        forall|s: Suggestion| #[trigger]
            unpicked_of(items, picked).contains(s) ==> items.contains(s),
        forall|s: Suggestion|
            #[trigger] items.contains(s) && !(tag_name(s) matches Some(n) && picked.contains(n))
                ==> unpicked_of(items, picked).contains(s),
    decreases items.len(),
{
    if items.len() > 0 {
        let d = items.drop_last();
        let last = items.last();
        lemma_unpicked_of_keeps_the_rest(d, picked);
        let rest = unpicked_of(d, picked);
        let r = unpicked_of(items, picked);
        assert(unpicked(last, picked) <==> !(tag_name(last) matches Some(n) && picked.contains(n)));
        assert forall|i: int| 0 <= i < r.len() implies (tag_name(#[trigger] r[i]) matches Some(n)
            ==> !picked.contains(n)) by {
            if i < rest.len() {
                assert(r[i] == rest[i]);
            }
        }
        assert forall|s: Suggestion| #[trigger] r.contains(s) implies items.contains(s) by {
            let i = choose|i: int| 0 <= i < r.len() && r[i] == s;
            if i < rest.len() {
                assert(r[i] == rest[i]);
                assert(rest.contains(s));
                let j = choose|j: int| 0 <= j < d.len() && d[j] == s;
                assert(items[j] == d[j]);
            } else {
                assert(items[items.len() - 1] == s);
            }
        }
        assert forall|s: Suggestion|
            #[trigger] items.contains(s) && !(tag_name(s) matches Some(n) && picked.contains(
                n,
            )) implies r.contains(s) by {
            let j = choose|j: int| 0 <= j < items.len() && items[j] == s;
            if j < d.len() {
                assert(d[j] == s);
                assert(d.contains(s));
                assert(rest.contains(s));
                let i = choose|i: int| 0 <= i < rest.len() && rest[i] == s;
                if unpicked(last, picked) {
                    assert(r[i] == rest[i]);
                }
            } else {
                assert(r[r.len() - 1] == s);
            }
        }
    }
}

/// What [narrowed] keeps: without an exclude text, the suggestions; with one, those that are not
/// tags it picks; at most `limit` of them, from the front.
pub open spec fn narrowed_of(items: Seq<Suggestion>, exclude: Option<Seq<char>>, limit: int) -> Seq<
    Suggestion,
> {
    let kept = match exclude {
        Some(e) => unpicked_of(items, picked_pieces(e)),
        None => items,
    };
    kept.take(if limit < kept.len() {
        limit
    } else {
        kept.len() as int
    })
}

/// Narrowing keeps the first `limit` suggestions it does not leave out, or all of them when there
/// are fewer: with no exclude text, the first `limit` suggestions; with one, a leading part of
/// the suggestions that are not tags it picks.
pub proof fn lemma_narrowed_of(items: Seq<Suggestion>, exclude: Option<Seq<char>>, limit: int)
    requires
        0 <= limit,
    ensures
        narrowed_of(items, exclude, limit).len() == if limit < (match exclude {
            Some(e) => unpicked_of(items, picked_pieces(e)),
            None => items,
        }).len() {
            limit
        } else {
            (match exclude {
                Some(e) => unpicked_of(items, picked_pieces(e)),
                None => items,
            }).len() as int
        },
        exclude is None ==> forall|i: int|
            0 <= i < narrowed_of(items, exclude, limit).len() ==> #[trigger] narrowed_of(
                items,
                exclude,
                limit,
            )[i] == items[i],
        exclude matches Some(e) ==> forall|i: int|
            0 <= i < narrowed_of(items, exclude, limit).len() ==> #[trigger] narrowed_of(
                items,
                exclude,
                limit,
            )[i] == unpicked_of(items, picked_pieces(e))[i],
{
}

/// The tag names an exclude text picks: its comma-separated pieces, trimmed.
pub open spec fn picked_pieces(exclude: Seq<char>) -> Seq<Seq<char>> {
    comma_pieces(exclude).map_values(|q: Seq<char>| trim_seq(q))
}

/// Narrowing by an exclude text keeps no tag whose name equals a trimmed comma-separated piece of
/// that text: narrowing keeps a leading part of these suggestions.
pub proof fn lemma_narrowed_leaves_out_picked(items: Seq<Suggestion>, exclude: Seq<char>)
    ensures
        forall|i: int, p: int|
            #![trigger unpicked_of(items, picked_pieces(exclude))[i], comma_pieces(exclude)[p]]
            0 <= i < unpicked_of(items, picked_pieces(exclude)).len() && 0 <= p < comma_pieces(
                exclude,
            ).len() ==> tag_name(unpicked_of(items, picked_pieces(exclude))[i]) != Some(
                trim_seq(comma_pieces(exclude)[p]),
            ),
{
    let picked = picked_pieces(exclude);
    lemma_unpicked_of_keeps_the_rest(items, picked);
    let r = unpicked_of(items, picked);
    assert forall|i: int, p: int|
        0 <= i < r.len() && 0 <= p < comma_pieces(exclude).len() implies tag_name(r[i]) != Some(
        trim_seq(comma_pieces(exclude)[p]),
    ) by {
        assert(picked[p] == trim_seq(comma_pieces(exclude)[p]));
        if tag_name(r[i]) == Some(trim_seq(comma_pieces(exclude)[p])) {
            assert(picked.contains(picked[p]));
        }
    }
}

fn is_picked(picked: &Vec<String>, name: &String) -> (r: bool)
    ensures
        r == texts(picked@).contains(name@),
{
    let mut k: usize = 0;
    while k < picked.len()
        invariant
            k <= picked.len(),
            forall|m: int| 0 <= m < k ==> texts(picked@)[m] != name@,
        decreases picked.len() - k,
    {
        if str_eq(picked[k].as_str(), name.as_str()) {
            assert(texts(picked@)[k as int] == name@);
            return true;
        }
        k = k + 1;
    }
    false
}

/// What a dropdown shows of the library's suggestions: without the tags the input already
/// holds, when it says which, and no more than the field's limit.
pub fn narrowed(suggestions: Vec<Suggestion>, exclude: Option<&str>, limit: usize) -> (r: Vec<
    Suggestion,
>)
    ensures
        r@ == narrowed_of(
            suggestions@,
            match exclude {
                Some(e) => Some(e@),
                None => None,
            },
            limit as int,
        ),
{
    let ghost all = suggestions@;
    let mut kept: Vec<Suggestion> = match exclude {
        Some(e) => {
            let picked = picked_tags(e);
            let ghost chosen = texts(picked@);
            let mut rest = suggestions;
            let mut out: Vec<Suggestion> = Vec::new();
            let mut k: usize = 0;
            assert(all.skip(0) =~= all);
            assert(all.take(0) =~= Seq::<Suggestion>::empty());
            assert(all.len() == rest.len());
            while rest.len() > 0
                invariant
                    k + rest@.len() == all.len(),
                    all.len() <= usize::MAX,
                    rest@ == all.skip(k as int),
                    chosen == texts(picked@),
                    out@ == unpicked_of(all.take(k as int), chosen),
                decreases rest@.len(),
            {
                let s = rest.remove(0);
                assert(s == all[k as int]);
                assert(all.take(k + 1).drop_last() =~= all.take(k as int));
                assert(all.take(k + 1).last() == s);
                let keep = match &s.item {
                    Suggested::Tag { name, .. } => !is_picked(&picked, name),
                    _ => true,
                };
                if keep {
                    out.push(s);
                }
                k = k + 1;
                assert(rest@ =~= all.skip(k as int));
            }
            assert(all.take(k as int) =~= all);
            out
        },
        None => suggestions,
    };
    kept.truncate(limit);
    kept
}

} // verus!
