use scorarium::auth::PasswordCheck;
use scorarium::router::audit::{changed_fields, spaced, summary, Action};
use scorarium::enrich::open_library::{Author, Edition, WorkHit};
use scorarium::router::suggest::{candidate, item, Data, Reference};
use scorarium::db::person::Contributor;
use scorarium::router::search::{
    credit, describe, href, CreditSummary, Entity, PersonSummary, PublicationSummary, WorkSummary,
};
use scorarium::db::pending_import::PendingImport;
use scorarium::db::publication::{HoldingKind, Publication};
use scorarium::db::work::Work;
use scorarium::raw_input::{HoldingRawInput, PublicationRawInput, WorkRawInput};
use scorarium::router::requests::{PersonPost, PersonRawInput, WorkPost};
use scorarium::router::suggest::{field_request, located, Source, SuggestField};
use scorarium::router::{
    back_to, claim_outcome, current_password_problem, label, login_step, message,
    new_password_problem, pair_messages, password_page, shown_holdings, tag_size, url,
    verify_outcome, work_message, BaseContext, Crumb, Library, LoginStep, Visibility, WorkEdit,
    WorkErrors,
};

fn library() -> Library {
    Library {
        id: 3,
        name: "Sheet music".into(),
        private: false,
    }
}

#[test]
fn crumbs_link_where_they_say() {
    let home = Crumb::home();
    assert_eq!((home.label.as_str(), home.href.as_str()), ("Home", "/"));
    let lib = Crumb::library(&library());
    assert_eq!((lib.label.as_str(), lib.href.as_str()), ("Sheet music", "/library/3"));
    let import = Crumb::import(&library());
    assert_eq!(import.href, "/library/3/import");
    let settings = Crumb::settings();
    assert_eq!((settings.label.as_str(), settings.href.as_str()), ("Settings", "/settings"));
    let publication = Publication {
        id: 12,
        library_id: 3,
        title: "Three gymnopedies".into(),
        publisher: None,
        year: None,
        identifiers: vec![],
        contributors: vec![],
        holdings: vec![],
    };
    let crumb = Crumb::publication(&publication);
    assert_eq!(crumb.label, "Three gymnopedies");
    assert_eq!(crumb.href, "/library/3/publication/12");
    let work = Work {
        id: 7,
        library_id: 3,
        title: "Gymnopedie No. 1".into(),
        key: None,
        time_signature: None,
        instrumentation: None,
        catalog_numbers: vec![],
        contributors: vec![],
    };
    assert_eq!(Crumb::work(&work).href, "/library/3/work/7");
    let pending = PendingImport {
        id: 5,
        library_id: 3,
        library_name: "Sheet music".into(),
        query: String::new(),
        holdings: vec![],
        created_at: 0,
    };
    let review = Crumb::import_review(&pending, "Untitled import");
    assert_eq!(review.label, "Untitled import");
    assert_eq!(review.href, "/library/3/import/5");
}

#[test]
fn a_page_finishes_its_header() {
    let base = BaseContext {
        title: String::new(),
        path: "/library/3".into(),
        logged_in: true,
        demo: false,
        pending_import_count: 2,
        breadcrumbs: vec![],
        bootstrap_css: "a.css".into(),
        bootstrap_icons_css: "b.css".into(),
        bootstrap_js: "c.js".into(),
    };
    let page = base.page("Sheet music".into(), vec![Crumb::home()]);
    assert_eq!(page.title, "Sheet music");
    assert_eq!(page.breadcrumbs, vec![Crumb::home()]);
    assert_eq!(page.path, "/library/3");
    assert_eq!(page.pending_import_count, 2);
}

#[test]
fn a_stored_work_links_back_and_a_draft_does_not() {
    let stored = WorkEdit::Stored {
        back: "/library/3/publication/12".into(),
    };
    assert!(!stored.is_draft());
    assert_eq!(stored.back(), "/library/3/publication/12");
    let draft = WorkEdit::default();
    assert!(draft.is_draft());
    assert_eq!(draft.back(), "");
}

#[test]
fn only_a_path_on_this_site_is_honored() {
    assert_eq!(back_to(3, 7, Some("/settings".into())), "/settings");
    assert_eq!(back_to(3, 7, Some("/".into())), "/");
    assert_eq!(back_to(3, 7, Some("//evil.example".into())), "/library/3/work/7");
    assert_eq!(back_to(3, 7, Some("/\\evil.example".into())), "/library/3/work/7");
    assert_eq!(back_to(3, 7, Some("https://evil.example".into())), "/library/3/work/7");
    assert_eq!(back_to(3, 7, Some(String::new())), "/library/3/work/7");
    assert_eq!(back_to(3, 7, None), "/library/3/work/7");
}

#[test]
fn an_import_is_called_by_what_it_has() {
    let mut pending = PendingImport {
        id: 1,
        library_id: 1,
        library_name: String::new(),
        query: "gnossiennes".into(),
        holdings: vec![],
        created_at: 0,
    };
    let mut draft = PublicationRawInput::default();
    assert_eq!(label(&pending, &draft), "gnossiennes");
    draft.title = "Trois gnossiennes".into();
    assert_eq!(label(&pending, &draft), "Trois gnossiennes");
    draft.title = String::new();
    pending.query = String::new();
    assert_eq!(label(&pending, &draft), "Untitled import");
}

#[test]
fn visibility_reads_back() {
    assert_eq!(Visibility::default(), Visibility::Private);
    assert_eq!(Visibility::from_private(true), Visibility::Private);
    assert_eq!(Visibility::from_private(false), Visibility::Public);
    assert!(Visibility::Private.is_private());
    assert!(!Visibility::Public.is_private());
    assert_eq!(Visibility::Public.as_str(), "public");
    assert_eq!(Visibility::Private.as_str(), "private");
}

#[test]
fn tags_are_sized_by_use() {
    assert_eq!(tag_size(1, 1), 1);
    assert_eq!(tag_size(1, 9), 1);
    assert_eq!(tag_size(5, 9), 3);
    assert_eq!(tag_size(9, 9), 5);
    assert_eq!(tag_size(2, 3), 3);
}

#[test]
fn asset_urls_carry_half_the_hash() {
    let hash: Vec<u8> = (0u8..32).collect();
    assert_eq!(
        url("bootstrap.min.css", &hash),
        "/assets/bootstrap.min.css?v=0001020304050607"
    );
    let hash = [0xab; 32];
    assert_eq!(url("a.js", &hash), "/assets/a.js?v=abababababababab");
}

#[test]
fn logging_in_follows_the_claim_state() {
    assert_eq!(
        login_step(false, "", Some("")),
        LoginStep::ClaimForm("The password must not be empty.")
    );
    assert_eq!(
        login_step(false, "hunter2", Some("hunter3")),
        LoginStep::ClaimForm("The passwords did not match.")
    );
    assert_eq!(login_step(false, "hunter2", Some("hunter2")), LoginStep::Claim);
    assert_eq!(
        login_step(false, "hunter2", None),
        LoginStep::ClaimForm("No password is set yet. Set one first.")
    );
    assert_eq!(
        login_step(true, "hunter2", Some("hunter2")),
        LoginStep::LoginForm("A password is already set. Log in with it.")
    );
    assert_eq!(login_step(true, "hunter2", None), LoginStep::Verify);
    assert_eq!(claim_outcome(true), None);
    assert_eq!(
        claim_outcome(false),
        Some("A password was already set. Log in with it.")
    );
    assert_eq!(verify_outcome(PasswordCheck::Correct), None);
    assert_eq!(verify_outcome(PasswordCheck::Wrong), Some("Login failed"));
    assert_eq!(verify_outcome(PasswordCheck::Unclaimed), Some("Login failed"));
}

#[test]
fn changing_the_password_checks_both_copies_and_the_current_one() {
    assert_eq!(
        new_password_problem("a", "b"),
        Some("The new passwords did not match.")
    );
    assert_eq!(
        new_password_problem("", ""),
        Some("The new password must not be empty.")
    );
    assert_eq!(new_password_problem("hunter3", "hunter3"), None);
    assert_eq!(current_password_problem(PasswordCheck::Correct), None);
    assert_eq!(
        current_password_problem(PasswordCheck::Wrong),
        Some("Wrong current password.")
    );
}

#[test]
fn the_password_page_shows_the_problem() {
    let page = password_page(Some("Wrong current password."));
    assert!(page.starts_with("<!doctype html>\n<title>Change password</title>\n"));
    assert!(page.contains("<h1>Change password</h1>\n<p>Wrong current password.</p>\n<form"));
    assert!(page.ends_with("<button>Change password</button>\n</form>\n"));
    let plain = password_page(None);
    assert!(!plain.contains("<p>"));
    assert!(plain.contains("name=\"confirm\""));
}

#[test]
fn a_work_explains_the_problem_it_can() {
    let errors = WorkErrors {
        title: None,
        contributors: vec![None, Some("A role is required.".into())],
        catalog_numbers: vec![],
    };
    assert_eq!(work_message(&errors, Some(1), None), "A role is required.");
    assert_eq!(
        work_message(&errors, Some(0), None),
        "A hidden field is incomplete. Open the work to fix it."
    );
    let errors = WorkErrors {
        title: Some("A title is required.".into()),
        ..errors
    };
    assert_eq!(work_message(&errors, Some(1), None), "A title is required.");
    let clean = WorkErrors {
        title: None,
        contributors: vec![None],
        catalog_numbers: vec![Some("Unknown scheme.".into())],
    };
    assert_eq!(work_message(&clean, Some(0), Some(0)), "Unknown scheme.");
    assert_eq!(work_message(&clean, Some(0), Some(3)), "A hidden field is incomplete. Open the work to fix it.");
    let none = WorkErrors {
        title: None,
        contributors: vec![],
        catalog_numbers: vec![],
    };
    assert_eq!(work_message(&none, None, None), "");
}

#[test]
fn copies_are_shown_with_their_messages() {
    let copies = [
        HoldingRawInput {
            id: Some(4),
            kind: HoldingKind::Physical,
            location: "Bench".into(),
        },
        HoldingRawInput {
            id: None,
            kind: HoldingKind::Digital,
            location: String::new(),
        },
    ];
    let shown = shown_holdings(&copies, &vec![None, Some("Choose a file for a digital copy.".into())]);
    assert_eq!(shown.len(), 2);
    assert_eq!((shown[0].id.as_str(), shown[0].kind, shown[0].location.as_str()), ("4", "physical", "Bench"));
    assert_eq!(shown[0].message, "");
    assert_eq!((shown[1].id.as_str(), shown[1].kind), ("", "digital"));
    assert_eq!(shown[1].message, "Choose a file for a digital copy.");
    // A clean input has no slots at all
    let paired = pair_messages(&["a".to_string(), "b".to_string()], &vec![]);
    assert_eq!(paired, vec![("a".to_string(), String::new()), ("b".to_string(), String::new())]);
    assert_eq!(message(Some(&"x".to_string())), "x");
    assert_eq!(message(None), "");
}

#[test]
fn a_suggestion_request_names_its_field() {
    let (field, limit) = field_request("person", None, Source::Local).unwrap();
    assert_eq!(field, SuggestField::Person);
    assert_eq!(limit, 10);
    let (field, limit) = field_request("role", None, Source::Local).unwrap();
    assert_eq!(field, SuggestField::Role);
    assert_eq!(limit, 15);
    let (field, _) = field_request("work-number", Some(" Ludwig van Beethoven "), Source::Local).unwrap();
    assert_eq!(
        field,
        SuggestField::WorkNumber {
            composer: Some("Ludwig van Beethoven".into())
        }
    );
    let (field, _) = field_request("work-number", Some("  "), Source::Local).unwrap();
    assert_eq!(field, SuggestField::WorkNumber { composer: None });
    assert!(field_request("colour", None, Source::Local).is_none());
    assert!(field_request("person", None, Source::External).is_none());
    assert_eq!(
        field_request("publication", None, Source::External).unwrap().0,
        SuggestField::Publication
    );
    assert_eq!(Source::default(), Source::Local);
}

#[test]
fn a_hit_elsewhere_says_where() {
    assert_eq!(located("", "Sheet music"), "in Sheet music");
    assert_eq!(located("Sergei Rachmaninoff", "Sheet music"), "Sergei Rachmaninoff in Sheet music");
}

#[test]
fn posted_forms_are_trimmed() {
    let person = PersonRawInput::from_post(PersonPost {
        name: " Ralph Vaughan Williams ".into(),
        link: vec![" https://imslp.org/ ".into()],
    });
    assert_eq!(person.name, "Ralph Vaughan Williams");
    assert_eq!(person.links, vec!["https://imslp.org/".to_string()]);
    let work = WorkRawInput::from_post(WorkPost {
        title: " Prelude ".into(),
        key: "C-sharp minor ".into(),
        time_signature: "".into(),
        instrumentation: " piano".into(),
        contributor_name: vec![" Sergei Rachmaninoff".into()],
        contributor_role: vec!["composer".into()],
        catalog_number: vec![" Op. 3 No. 2 ".into()],
    });
    assert_eq!(work.id, None);
    assert_eq!(work.title, "Prelude");
    assert_eq!(work.key, "C-sharp minor");
    assert_eq!(work.instrumentation, "piano");
    assert_eq!(work.contributors[0].name, "Sergei Rachmaninoff");
    assert_eq!(work.catalog_numbers, vec!["Op. 3 No. 2".to_string()]);
}

#[test]
fn the_works_table_shows_only_the_columns_it_fills() {
    let work = |numbers: Vec<&str>, roles: &[&str]| Work {
        id: 1,
        library_id: 1,
        title: "W".into(),
        key: None,
        time_signature: None,
        instrumentation: None,
        catalog_numbers: numbers.into_iter().map(String::from).collect(),
        contributors: roles
            .iter()
            .map(|role| Contributor {
                person_id: 1,
                name: "N".into(),
                role: role.to_string(),
            })
            .collect(),
    };
    let (works, numbered, roles) = scorarium::router::publication::works_table(vec![
        work(vec![], &["composer", "arranger"]),
        work(vec!["Op. 1"], &["editor", "composer"]),
    ]);
    assert_eq!(works.len(), 2);
    assert!(numbered);
    assert_eq!(roles, vec!["arranger", "composer", "editor"]);
    let (_, numbered, roles) =
        scorarium::router::publication::works_table(vec![work(vec![], &["author"])]);
    assert!(!numbered);
    assert_eq!(roles, vec!["author"]);
    let (_, _, roles) = scorarium::router::publication::works_table(vec![work(vec![], &["b", "B", "a", "ab"])]);
    assert_eq!(roles, vec!["B", "a", "ab", "b"]);
}

#[test]
fn summaries_read_the_same_everywhere() {
    let person = Entity::Person(PersonSummary {
        id: 4,
        name: "Sergei Rachmaninoff".into(),
        works: 1,
    });
    assert_eq!(
        describe(&person),
        ("person", "Sergei Rachmaninoff".to_string(), "1 work".to_string())
    );
    assert_eq!(href(3, &person), "/library/3/person/4");
    let many = Entity::Person(PersonSummary {
        id: 5,
        name: "Erik Satie".into(),
        works: 12,
    });
    assert_eq!(describe(&many).2, "12 works");
    let summary = WorkSummary {
        id: 8,
        title: "Nocturne in E-flat major".into(),
        numbers: vec!["Op. 9 No. 2".into()],
        contributor: Some(CreditSummary {
            person_id: 1,
            name: "Frederic Chopin".into(),
            role: "composer".into(),
        }),
    };
    assert_eq!(credit(None, &summary), "by Frederic Chopin");
    let work = Entity::Work(summary);
    assert_eq!(
        describe(&work),
        (
            "work",
            "Nocturne in E-flat major".to_string(),
            "Op. 9 No. 2 by Frederic Chopin".to_string()
        )
    );
    assert_eq!(href(3, &work), "/library/3/work/8");
    let publication = Entity::Publication(PublicationSummary {
        id: 2,
        title: "Pro Git".into(),
        people: vec!["Scott Chacon".into(), "Ben Straub".into()],
        year: Some(2014),
    });
    assert_eq!(describe(&publication).2, "Scott Chacon, Ben Straub");
    assert_eq!(href(1, &publication), "/library/1/publication/2");
    let bare = WorkSummary {
        id: 9,
        title: "Untitled".into(),
        numbers: vec![],
        contributor: None,
    };
    assert_eq!(credit(None, &bare), "");
    assert_eq!(credit(Some(&"BWV 846".to_string()), &bare), "BWV 846");
}

#[test]
fn an_open_library_hit_offers_its_isbn() {
    let author = |name: &str| Author {
        olid: "OL1A".into(),
        name: name.into(),
        personal_name: None,
        alternate_names: vec![],
        birth_date: None,
        death_date: None,
        remote_ids: std::collections::HashMap::new(),
    };
    let edition = Edition {
        olid: "OL7636066M".into(),
        title: "Bagatelles".into(),
        subtitle: None,
        authors: vec![],
        contributions: vec![],
        by_statement: None,
        publishers: vec![],
        publish_date: None,
        isbn_10: vec!["0486253929".into()],
        isbn_13: vec!["bogus".into()],
        number_of_pages: None,
        covers: vec![],
        works: vec![],
    };
    let hit = WorkHit {
        olid: "OL1258206W".into(),
        title: "Bagatelles, Rondos and Other Shorter Works".into(),
        subtitle: Some("for Piano".into()),
        authors: vec![author("Ludwig van Beethoven")],
        first_publish_year: Some(1987),
        edition: Some(edition),
    };
    let shown = candidate(hit);
    assert_eq!(shown.kind, "publication");
    assert_eq!(shown.value, "978-0-486-25392-3");
    assert!(!shown.exact);
    assert_eq!(shown.primary, "Bagatelles, Rondos and Other Shorter Works: for Piano");
    assert_eq!(shown.secondary, "Ludwig van Beethoven");
    match shown.data {
        Data::Publication {
            reference: Reference::External { source, source_id },
            people,
            year,
            ..
        } => {
            assert_eq!(source, "Open Library");
            assert_eq!(source_id, "OL1258206W");
            assert_eq!(people, vec!["Ludwig van Beethoven".to_string()]);
            assert_eq!(year, Some(1987));
        }
        _ => panic!("a publication item"),
    }
    let bare = WorkHit {
        olid: "OL2W".into(),
        title: "Album".into(),
        subtitle: None,
        authors: vec![author("A"), author("B")],
        first_publish_year: None,
        edition: None,
    };
    let shown = candidate(bare);
    assert_eq!(shown.value, "Album");
    assert_eq!(shown.secondary, "A, B");
}

#[test]
fn a_library_entity_is_a_dropdown_item() {
    let work = Entity::Work(WorkSummary {
        id: 8,
        title: "Nocturne".into(),
        numbers: vec!["Op. 9 No. 2".into()],
        contributor: Some(CreditSummary {
            person_id: 1,
            name: "Frederic Chopin".into(),
            role: "composer".into(),
        }),
    });
    let shown = item(work, true, Some(true));
    assert_eq!((shown.kind, shown.value.as_str(), shown.exact), ("work", "Nocturne", true));
    assert_eq!(shown.secondary, "Op. 9 No. 2 by Frederic Chopin");
    match shown.data {
        Data::Work {
            reference: Reference::Local { id },
            contributor,
            role,
            contributor_id,
            recognized,
            ..
        } => {
            assert_eq!(id, 8);
            assert_eq!(contributor, Some("Frederic Chopin".to_string()));
            assert_eq!(role, Some("composer".to_string()));
            assert_eq!(contributor_id, Some(1));
            assert_eq!(recognized, Some(true));
        }
        _ => panic!("a work item"),
    }
    let person = Entity::Person(PersonSummary {
        id: 4,
        name: "Erik Satie".into(),
        works: 3,
    });
    let shown = item(person, false, None);
    assert_eq!(shown.value, "Erik Satie");
    assert_eq!(shown.secondary, "3 works");
}

#[test]
fn audit_events_read_as_sentences() {
    assert_eq!(summary(Action::Created, "publication"), "Created publication");
    assert_eq!(summary(Action::Renamed, "person"), "Renamed person to");
    assert_eq!(summary(Action::Merged, "person"), "Merged into person");
    assert_eq!(summary(Action::ImportAccepted, "publication"), "Accepted import as publication");
    assert_eq!(summary(Action::PasswordChanged, ""), "Changed the password");
    assert_eq!(spaced("catalog_number"), "catalog number");
    assert_eq!(
        changed_fields(&vec!["title".to_string(), "time_signature".to_string()]),
        "title, time signature"
    );
}
