use std::collections::HashMap;

use scorarium::db::publication::HoldingKind;
use scorarium::enrich::merge;
use scorarium::enrich::open_library::{to_publication, year, Author, Edition};
use scorarium::raw_input::{ContributorInput, HoldingRawInput, IdentifierRawInput, PublicationRawInput};

fn isbn(value: &str) -> IdentifierRawInput {
    IdentifierRawInput {
        kind: "isbn".to_string(),
        value: value.to_string(),
    }
}

#[test]
fn merge_keeps_what_the_draft_already_has() {
    let holding = HoldingRawInput {
        id: None,
        kind: HoldingKind::Physical,
        location: "Shelf 3".to_string(),
    };
    let mut draft = PublicationRawInput {
        title: "My title".to_string(),
        holdings: vec![holding.clone()],
        // As typed, not normalized, so the match has to go through normalization
        identifiers: vec![isbn("0486253929")],
        ..Default::default()
    };
    let found = PublicationRawInput {
        title: "Bagatelles, Rondos and Other Shorter Works for Piano".to_string(),
        publisher: "Dover Publications".to_string(),
        year: "1987".to_string(),
        identifiers: vec![isbn("978-0-486-25392-3"), isbn("978-0-486-23134-1")],
        contributors: vec![ContributorInput {
            name: "Ludwig van Beethoven".to_string(),
            role: "author".to_string(),
        }],
        links: vec!["https://openlibrary.org/books/OL7636066M".to_string()],
        ..Default::default()
    };

    merge(&mut draft, found);

    assert_eq!(
        draft,
        PublicationRawInput {
            title: "My title".to_string(),
            publisher: "Dover Publications".to_string(),
            year: "1987".to_string(),
            holdings: vec![holding],
            identifiers: vec![isbn("0486253929"), isbn("978-0-486-23134-1")],
            contributors: vec![ContributorInput {
                name: "Ludwig van Beethoven".to_string(),
                role: "author".to_string(),
            }],
            links: vec!["https://openlibrary.org/books/OL7636066M".to_string()],
            ..Default::default()
        }
    );
}

#[test]
fn merge_adds_each_value_once_and_keeps_text() {
    let mut draft = PublicationRawInput {
        title: "   ".to_string(),
        publisher: "Schirmer".to_string(),
        identifiers: vec![isbn("not an isbn")],
        links: vec!["https://example.org/a".to_string()],
        ..Default::default()
    };
    let found = PublicationRawInput {
        title: "Found".to_string(),
        publisher: "Dover".to_string(),
        identifiers: vec![isbn("not an isbn"), isbn("0-486-23134-8"), isbn("978-0-486-23134-1")],
        contributors: vec![
            ContributorInput {
                name: "A".to_string(),
                role: "author".to_string(),
            },
            ContributorInput {
                name: "A".to_string(),
                role: "author".to_string(),
            },
        ],
        links: vec![
            "https://example.org/a".to_string(),
            "https://example.org/b".to_string(),
        ],
        ..Default::default()
    };
    merge(&mut draft, found);
    // A blank title takes the found one; a filled publisher keeps its own
    assert_eq!(draft.title, "Found");
    assert_eq!(draft.publisher, "Schirmer");
    // One that does not parse never matches, so it is added; the ISBN-10 and its ISBN-13 are one
    assert_eq!(
        draft.identifiers,
        vec![isbn("not an isbn"), isbn("not an isbn"), isbn("0-486-23134-8")]
    );
    assert_eq!(draft.contributors.len(), 1);
    assert_eq!(
        draft.links,
        vec![
            "https://example.org/a".to_string(),
            "https://example.org/b".to_string()
        ]
    );
}

#[test]
fn a_full_edition_becomes_a_draft() {
    let edition = Edition {
        olid: "OL7636066M".to_string(),
        title: "Bagatelles, Rondos and Other Shorter Works".to_string(),
        subtitle: Some("for Piano".to_string()),
        authors: vec!["OL127077A".to_string(), "OL2A".to_string()],
        contributions: vec!["Somebody (Illustrator)".to_string()],
        by_statement: Some("by Beethoven".to_string()),
        publishers: vec![
            "Dover Publications".to_string(),
            "Somebody Else".to_string(),
        ],
        publish_date: Some("July 1, 1987".to_string()),
        isbn_10: vec!["0486253929".to_string()],
        isbn_13: vec!["9780486253923".to_string()],
        number_of_pages: Some(128),
        covers: vec![310277],
        works: vec!["OL1258206W".to_string()],
    };
    let author = |olid: &str, name: &str| Author {
        olid: olid.to_string(),
        name: name.to_string(),
        personal_name: None,
        alternate_names: Vec::new(),
        birth_date: None,
        death_date: None,
        remote_ids: HashMap::new(),
    };
    let authors = [
        author("OL127077A", "Ludwig van Beethoven"),
        author("OL2A", "Somebody"),
    ];

    assert_eq!(
        to_publication(&edition, &authors),
        PublicationRawInput {
            title: "Bagatelles, Rondos and Other Shorter Works: for Piano".to_string(),
            publisher: "Dover Publications".to_string(),
            year: "1987".to_string(),
            identifiers: vec![IdentifierRawInput {
                kind: "isbn".to_string(),
                value: "978-0-486-25392-3".to_string(),
            }],
            contributors: vec![
                ContributorInput {
                    name: "Ludwig van Beethoven".to_string(),
                    role: "author".to_string(),
                },
                ContributorInput {
                    name: "Somebody".to_string(),
                    role: "author".to_string(),
                },
            ],
            links: vec!["https://openlibrary.org/books/OL7636066M".to_string()],
            ..Default::default()
        }
    );
}

#[test]
fn a_bare_edition_becomes_a_bare_draft() {
    let edition = Edition {
        olid: "OL1M".to_string(),
        title: "Album".to_string(),
        subtitle: None,
        authors: vec![],
        contributions: vec![],
        by_statement: None,
        publishers: vec![],
        publish_date: Some("sometime".to_string()),
        isbn_10: vec!["bogus".to_string()],
        isbn_13: vec![],
        number_of_pages: None,
        covers: vec![],
        works: vec![],
    };
    let draft = to_publication(&edition, &[]);
    assert_eq!(draft.title, "Album");
    assert_eq!(draft.publisher, "");
    assert_eq!(draft.year, "");
    assert!(draft.identifiers.is_empty());
    assert!(draft.contributors.is_empty());
    assert_eq!(draft.links, vec![edition.url()]);
    assert_eq!(edition.url(), "https://openlibrary.org/books/OL1M");
}

#[test]
fn year_is_the_first_four_digit_run() {
    assert_eq!(year("July 1, 1987"), Some("1987".to_string()));
    assert_eq!(year("c1990"), Some("1990".to_string()));
    assert_eq!(year("19870701"), None);
    assert_eq!(year(""), None);
}

#[test]
fn a_year_must_stand_alone() {
    assert_eq!(year("12345 or 2001"), Some("2001".to_string()));
    assert_eq!(year("1999-2000"), Some("1999".to_string()));
    assert_eq!(year("May 87"), None);
}
