use scorarium::db::person::Contributor;
use scorarium::db::publication::{Holding, HoldingKind, Identifier, Publication};
use scorarium::db::work::Work;
use scorarium::identifier;
use scorarium::publication_form::{
    contributor_rows, holding_kinds, holding_rows, parse_contributors, sort_name, ContributorRow,
    Errors, HoldingRow, HoldingUpdate, IdentifierRow, PublicationForm, Submission, WorkRow,
};

fn work_row(id: Option<i64>, title: &str, name: &str, role: &str) -> WorkRow {
    WorkRow {
        id,
        title: title.into(),
        contributor: ContributorRow {
            name: name.into(),
            role: role.into(),
        },
    }
}

#[test]
fn publication_form_form_errors() {
    let form = PublicationForm {
        title: String::new(),
        publisher: String::new(),
        year: "abc".into(),
        holdings: vec![HoldingRow {
            id: None,
            kind: HoldingKind::Digital,
            location: String::new(),
        }],
        identifiers: vec![
            IdentifierRow {
                kind: "isbn".into(),
                value: "978-1-4950-0871-0".into(),
            },
            IdentifierRow {
                kind: "isbn".into(),
                value: "0-486-23134-8".into(),
            },
            IdentifierRow {
                kind: "isbn".into(),
                value: "978-0-486-23134-1".into(),
            },
            IdentifierRow {
                kind: "isbn".into(),
                value: String::new(),
            },
        ],
        contributors: vec![
            ContributorRow {
                name: "Erik Satie".into(),
                role: String::new(),
            },
            ContributorRow {
                name: "Erik Satie".into(),
                role: "composer".into(),
            },
            ContributorRow {
                name: "Erik Satie".into(),
                role: "composer".into(),
            },
            ContributorRow {
                name: String::new(),
                role: String::new(),
            },
        ],
        works: vec![
            work_row(None, "", "", ""),
            work_row(None, "", "Erik Satie", "composer"),
            work_row(None, "Gnossienne No. 1", "", "composer"),
            work_row(Some(7), "Gnossienne No. 2", "Erik Satie", ""),
        ],
    };
    assert_eq!(
        form.parse().unwrap_err(),
        Errors {
            title: Some("A title is required.".into()),
            year: Some("The year must be a number.".into()),
            holdings: vec![Some("Choose a file for a digital copy.".into())],
            no_holdings: None,
            identifiers: vec![
                Some("invalid ISBN".into()),
                None,
                Some("Already listed.".into()),
                Some("Fill this in or remove it.".into()),
            ],
            contributors: vec![
                Some("A role is required.".into()),
                None,
                Some("Already listed.".into()),
                Some("Fill this in or remove it.".into()),
            ],
            works: vec![
                Some("Fill this in or remove it.".into()),
                Some("A title is required.".into()),
                Some("A name is required.".into()),
                Some("A role is required.".into()),
            ],
        }
    );

    let form = PublicationForm {
        title: "Untitled".into(),
        publisher: String::new(),
        year: String::new(),
        holdings: Vec::new(),
        identifiers: Vec::new(),
        contributors: Vec::new(),
        works: Vec::new(),
    };
    assert_eq!(
        form.parse().unwrap_err(),
        Errors {
            no_holdings: Some("A publication needs at least one copy.".into()),
            ..Errors::default()
        }
    );

    let form = PublicationForm {
        title: "Three gymnopedies".into(),
        publisher: String::new(),
        year: String::new(),
        holdings: vec![HoldingRow {
            id: None,
            kind: HoldingKind::Physical,
            location: String::new(),
        }],
        identifiers: vec![IdentifierRow {
            kind: "isbn".into(),
            value: "0-486-23134-8".into(),
        }],
        contributors: vec![ContributorRow {
            name: "Erik Satie".into(),
            role: "composer".into(),
        }],
        works: vec![
            work_row(Some(3), "Gymnopedie No. 1", "Erik Satie", "composer"),
            // An anonymous piece needs no contributor
            work_row(None, "Trois gnossiennes", "", ""),
        ],
    };
    let validated = form.parse().unwrap();
    assert_eq!(validated.title, "Three gymnopedies");
    assert_eq!(validated.publisher, None);
    assert_eq!(validated.year, None);
    assert_eq!(
        validated.holdings,
        [HoldingUpdate {
            id: None,
            kind: HoldingKind::Physical,
            location: None,
        }]
    );
    assert_eq!(
        validated.identifiers,
        [(
            identifier::Kind::Isbn,
            identifier::normalize(identifier::Kind::Isbn, "0-486-23134-8").unwrap()
        )]
    );
    assert_eq!(
        validated.contributors,
        [ContributorRow {
            name: "Erik Satie".into(),
            role: "composer".into(),
        }]
    );
    assert_eq!(
        validated.works,
        [
            work_row(Some(3), "Gymnopedie No. 1", "Erik Satie", "composer"),
            work_row(None, "Trois gnossiennes", "", ""),
        ]
    );
}

#[test]
fn a_year_and_a_publisher_are_kept() {
    let form = PublicationForm {
        title: "Album".into(),
        publisher: "Schirmer".into(),
        year: "-12".into(),
        holdings: vec![HoldingRow {
            id: Some(4),
            kind: HoldingKind::Digital,
            location: "album.pdf".into(),
        }],
        identifiers: vec![IdentifierRow {
            kind: "catalog".into(),
            value: "1".into(),
        }],
        contributors: Vec::new(),
        works: Vec::new(),
    };
    let errors = form.parse().unwrap_err();
    assert_eq!(errors.identifiers, vec![Some("Unknown identifier kind.".into())]);
    assert!(!errors.is_empty());

    let form = PublicationForm {
        identifiers: Vec::new(),
        ..form
    };
    let validated = form.parse().unwrap();
    assert_eq!(validated.publisher, Some("Schirmer".into()));
    assert_eq!(validated.year, Some(-12));
    assert_eq!(
        validated.holdings,
        [HoldingUpdate {
            id: Some(4),
            kind: HoldingKind::Digital,
            location: Some("album.pdf".into()),
        }]
    );
}

#[test]
fn contributors_are_checked_row_by_row() {
    let rows = contributor_rows(
        vec![" Erik Satie ".into(), "".into(), "Maurice Ravel".into()],
        vec!["composer".into(), "editor".into()],
    );
    assert_eq!(
        rows,
        vec![
            ContributorRow {
                name: "Erik Satie".into(),
                role: "composer".into()
            },
            ContributorRow {
                name: "".into(),
                role: "editor".into()
            },
        ]
    );
    assert_eq!(
        parse_contributors(&rows),
        vec![None, Some("A name is required.".to_string())]
    );
}

#[test]
fn a_checked_toggle_makes_its_row_digital() {
    let (digital, physical) = (HoldingKind::Digital, HoldingKind::Physical);
    assert_eq!(
        holding_kinds(vec![physical, physical, digital, physical]),
        vec![physical, digital, physical]
    );
    assert_eq!(holding_kinds(vec![digital]), vec![digital]);
    assert_eq!(
        holding_rows(
            vec!["3".into()],
            vec![physical, digital, physical],
            vec![" Shelf ".into(), "Bench".into()],
            vec!["a.pdf".into(), " b.pdf ".into()],
        ),
        vec![
            HoldingRow {
                id: Some(3),
                kind: digital,
                location: "a.pdf".into()
            },
            HoldingRow {
                id: None,
                kind: physical,
                location: "Bench".into()
            },
        ]
    );
}

#[test]
fn a_submission_becomes_a_trimmed_form() {
    let submission = Submission {
        title: " Album ".into(),
        publisher: "".into(),
        year: " 1888".into(),
        holding_id: vec![],
        holding_kind: vec![HoldingKind::Physical],
        holding_location: vec![" Piano bench ".into()],
        holding_file: vec!["".into()],
        identifier_kind: vec!["isbn".into()],
        identifier_value: vec![" 0-486-23134-8 ".into()],
        contributor_name: vec!["Erik Satie".into()],
        contributor_role: vec!["composer ".into()],
        work_id: vec!["12".into(), "x".into()],
        work_title: vec!["Gymnopedie No. 1".into(), "Gymnopedie No. 2".into()],
        work_contributor_name: vec!["Erik Satie".into(), "".into()],
        work_contributor_role: vec!["composer".into(), "".into()],
    };
    let form = PublicationForm::from_submission(submission);
    assert_eq!(form.title, "Album");
    assert_eq!(form.year, "1888");
    assert_eq!(
        form.holdings,
        vec![HoldingRow {
            id: None,
            kind: HoldingKind::Physical,
            location: "Piano bench".into()
        }]
    );
    assert_eq!(
        form.identifiers,
        vec![IdentifierRow {
            kind: "isbn".into(),
            value: "0-486-23134-8".into()
        }]
    );
    assert_eq!(
        form.works,
        vec![
            work_row(Some(12), "Gymnopedie No. 1", "Erik Satie", "composer"),
            work_row(None, "Gymnopedie No. 2", "", ""),
        ]
    );
}

#[test]
fn a_stored_publication_opens_as_typed() {
    let publication = Publication {
        id: 1,
        library_id: 2,
        title: "Three gymnopedies".into(),
        publisher: None,
        year: Some(1888),
        identifiers: vec![Identifier {
            id: 5,
            kind: identifier::Kind::Isbn,
            value: "978-0-486-23134-1".into(),
        }],
        contributors: vec![Contributor {
            person_id: 9,
            name: "Erik Satie".into(),
            role: "composer".into(),
        }],
        holdings: vec![Holding {
            id: 6,
            kind: HoldingKind::Physical,
            location: None,
        }],
    };
    let works = [Work {
        id: 3,
        library_id: 2,
        title: "Gymnopedie No. 1".into(),
        key: None,
        time_signature: None,
        instrumentation: None,
        catalog_numbers: vec![],
        contributors: vec![
            Contributor {
                person_id: 10,
                name: "Maurice Ravel".into(),
                role: "arranger".into(),
            },
            Contributor {
                person_id: 9,
                name: "Erik Satie".into(),
                role: "composer".into(),
            },
        ],
    }];
    let form = PublicationForm::stored(&publication, &works);
    assert_eq!(form.publisher, "");
    assert_eq!(form.year, "1888");
    assert_eq!(
        form.holdings,
        vec![HoldingRow {
            id: Some(6),
            kind: HoldingKind::Physical,
            location: "".into()
        }]
    );
    assert_eq!(
        form.identifiers,
        vec![IdentifierRow {
            kind: "isbn".into(),
            value: "978-0-486-23134-1".into()
        }]
    );
    assert_eq!(
        form.works,
        vec![work_row(Some(3), "Gymnopedie No. 1", "Erik Satie", "composer")]
    );
}

#[test]
fn sort_names_put_the_surname_first() {
    assert_eq!(sort_name("Erik Satie"), "Satie, Erik");
    assert_eq!(sort_name("Ralph Vaughan Williams"), "Williams, Ralph Vaughan");
    assert_eq!(sort_name("Anonymous"), "Anonymous");
    assert_eq!(sort_name(""), "");
}

#[test]
fn row_ids_show_as_typed() {
    assert_eq!(work_row(Some(-3), "", "", "").id_value(), "-3");
    assert_eq!(work_row(None, "", "", "").id_value(), "");
    let holding = HoldingRow {
        id: Some(42),
        kind: HoldingKind::Physical,
        location: String::new(),
    };
    assert_eq!(holding.id_value(), "42");
}

#[test]
fn publications_are_read_back_with_their_children() {
    let bare = |id: i64, title: &str| Publication {
        id,
        library_id: 1,
        title: title.into(),
        publisher: None,
        year: None,
        identifiers: vec![],
        contributors: vec![],
        holdings: vec![],
    };
    let publications = scorarium::db::publication::assemble(
        vec![bare(1, "Pro Git"), bare(2, "Practical Vim")],
        vec![(
            2,
            Identifier {
                id: 9,
                kind: identifier::Kind::Isbn,
                value: "978-1-68050-127-8".into(),
            },
        )],
        vec![
            (
                1,
                Contributor {
                    person_id: 3,
                    name: "Scott Chacon".into(),
                    role: "author".into(),
                },
            ),
            (
                1,
                Contributor {
                    person_id: 4,
                    name: "Ben Straub".into(),
                    role: "author".into(),
                },
            ),
        ],
        vec![(
            2,
            Holding {
                id: 5,
                kind: HoldingKind::Physical,
                location: Some("Desk".into()),
            },
        )],
    );
    assert_eq!(publications[0].title, "Pro Git");
    assert!(publications[0].identifiers.is_empty());
    let names: Vec<&str> = publications[0].contributors.iter().map(|c| c.name.as_str()).collect();
    assert_eq!(names, vec!["Scott Chacon", "Ben Straub"]);
    assert_eq!(publications[1].identifiers[0].value, "978-1-68050-127-8");
    assert_eq!(publications[1].holdings[0].location, Some("Desk".to_string()));
    assert_eq!(publications[0].roles_of(4), vec!["author"]);
}

#[test]
fn a_hidden_id_reads_back() {
    for id in [Some(0), Some(42), Some(-7), Some(i64::MAX), Some(i64::MIN), None] {
        let row = HoldingRow {
            id,
            kind: HoldingKind::Physical,
            location: String::new(),
        };
        let rows = holding_rows(
            vec![format!(" {} ", row.id_value())],
            vec![HoldingKind::Physical],
            vec![String::new()],
            vec![String::new()],
        );
        assert_eq!(rows[0].id, id);
    }
}
