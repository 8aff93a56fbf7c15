use scorarium::db::person::Contributor;
use scorarium::raw_input::{ContributorInput, WorkRawInput};
use scorarium::router::audit::{shown_entry, Action, AuditEntry, AuditEvent, EntityRef};
use scorarium::router::search::{CreditSummary, PersonSummary, WorkSummary};
use scorarium::router::suggest::{
    narrowed, picked_tags, shown, worth_searching, Data, NumberPick, Suggested, Suggestion,
};
use scorarium::router::tag::{tagged, Tagged};
use scorarium::router::{shown_works, WorkErrors};

fn tag(name: &str, count: i64) -> Suggestion {
    Suggestion {
        item: Suggested::Tag {
            name: name.into(),
            count,
        },
        exact: false,
    }
}

fn name_of(s: &Suggestion) -> String {
    match &s.item {
        Suggested::Tag { name, .. } => name.clone(),
        Suggested::Role(v) => v.clone(),
        _ => String::new(),
    }
}

#[test]
fn picked_tags_are_left_out_and_the_list_capped() {
    assert_eq!(picked_tags(" editor, baroque ,"), vec!["editor", "baroque", ""]);
    assert_eq!(picked_tags(""), vec![""]);
    let all = || vec![tag("editor", 1), tag("baroque", 2), tag("piano", 3)];
    let kept = narrowed(all(), Some("editor"), 15);
    let names: Vec<String> = kept.iter().map(name_of).collect();
    assert_eq!(names, vec!["baroque", "piano"]);
    let kept = narrowed(all(), None, 2);
    let names: Vec<String> = kept.iter().map(name_of).collect();
    assert_eq!(names, vec!["editor", "baroque"]);
    let roles = vec![
        Suggestion {
            item: Suggested::Role("editor".into()),
            exact: true,
        },
        tag("editor", 1),
    ];
    let kept = narrowed(roles, Some("editor"), 15);
    assert_eq!(kept.len(), 1);
    assert_eq!(name_of(&kept[0]), "editor");
}

#[test]
fn only_words_worth_it_go_to_an_outside_search() {
    assert!(worth_searching("bagatelles rondos", false));
    assert!(worth_searching("  bagatelles ", false));
    assert!(!worth_searching("bagat", false));
    assert!(!worth_searching("   ", false));
    assert!(!worth_searching("978-0-48", true));
}

#[test]
fn suggestions_become_dropdown_items() {
    let shown_tag = shown(tag("baroque", 3));
    assert_eq!(
        (shown_tag.kind, shown_tag.value.as_str(), shown_tag.secondary.as_str()),
        ("tag", "baroque", "3 tagged")
    );
    let plain = shown(Suggestion {
        item: Suggested::Key("E minor".into()),
        exact: true,
    });
    assert_eq!((plain.kind, plain.value.as_str(), plain.primary.as_str(), plain.exact), ("plain", "E minor", "E minor", true));
    assert_eq!(plain.secondary, "");
    let person = shown(Suggestion {
        item: Suggested::Person(PersonSummary {
            id: 1,
            name: "Sergei Rachmaninoff".into(),
            works: 2,
        }),
        exact: false,
    });
    assert_eq!((person.kind, person.value.as_str(), person.secondary.as_str()), ("person", "Sergei Rachmaninoff", "2 works"));
    let work = || WorkSummary {
        id: 8,
        title: "Nocturne in E-flat major".into(),
        numbers: vec!["Op. 9 No. 2".into()],
        contributor: Some(CreditSummary {
            person_id: 1,
            name: "Frederic Chopin".into(),
            role: "composer".into(),
        }),
    };
    let by_number = shown(Suggestion {
        item: Suggested::Work {
            work: work(),
            recognized: Some(false),
            number: Some(NumberPick {
                number: "Op. 9 No. 2".into(),
                primary: "Op. 9 No. 2".into(),
                secondary: "Nocturne in E-flat major by Frederic Chopin".into(),
                recognized: true,
            }),
        },
        exact: true,
    });
    assert_eq!(by_number.value, "Op. 9 No. 2");
    assert_eq!(by_number.secondary, "Nocturne in E-flat major by Frederic Chopin");
    match by_number.data {
        Data::Work { recognized, .. } => assert_eq!(recognized, Some(true)),
        _ => panic!("a work item"),
    }
    let by_title = shown(Suggestion {
        item: Suggested::Work {
            work: work(),
            recognized: Some(false),
            number: None,
        },
        exact: false,
    });
    assert_eq!(by_title.value, "Nocturne in E-flat major");
    match by_title.data {
        Data::Work { recognized, .. } => assert_eq!(recognized, Some(false)),
        _ => panic!("a work item"),
    }
}

#[test]
fn audit_entries_read_as_lines() {
    let entry = AuditEntry {
        group_id: None,
        created_at: 0,
        source: "review_page".into(),
        event: AuditEvent {
            action: Action::Updated,
            entity: Some(EntityRef {
                kind: "publication".into(),
                id: 3,
                library_id: Some(1),
                label: "Pro Git".into(),
            }),
            fields: vec!["title".into(), "time_signature".into()],
        },
    };
    let shown = shown_entry(&entry, Some("/library/1/publication/3".into()));
    assert!(shown.heads_a_group);
    assert_eq!(shown.source, "review page");
    assert_eq!(shown.summary, "Updated publication");
    assert_eq!(shown.label, "Pro Git");
    assert_eq!(shown.href, Some("/library/1/publication/3".to_string()));
    assert_eq!(shown.fields, "title, time signature");
    let claim = AuditEntry {
        group_id: Some(4),
        created_at: 0,
        source: "login".into(),
        event: AuditEvent {
            action: Action::PasswordClaimed,
            entity: None,
            fields: vec![],
        },
    };
    let shown = shown_entry(&claim, Some("/nowhere".into()));
    assert!(!shown.heads_a_group);
    assert_eq!(shown.summary, "Claimed the password");
    assert_eq!(shown.href, None);
    assert_eq!(shown.fields, "");
}

#[test]
fn works_show_their_lead_and_what_is_hidden() {
    let credit = |name: &str, role: &str| ContributorInput {
        name: name.into(),
        role: role.into(),
    };
    let contents = vec![
        WorkRawInput {
            id: Some(4),
            title: "Prelude".into(),
            contributors: vec![credit("Liszt", "arranger"), credit("Chopin", "composer"), credit("X", "")],
            catalog_numbers: vec!["Op. 28".into(), "B. 107".into()],
            ..WorkRawInput::default()
        },
        WorkRawInput {
            title: "Mazurka".into(),
            ..WorkRawInput::default()
        },
    ];
    let errors = vec![WorkErrors {
        title: None,
        contributors: vec![None, None, Some("A role is required.".into())],
        catalog_numbers: vec![None, None],
    }];
    let shown = shown_works(&contents, &errors, &vec![Some(1), None], &vec![true, false]);
    assert_eq!(shown.len(), 2);
    assert_eq!((shown[0].id.as_str(), shown[0].title.as_str()), ("4", "Prelude"));
    assert_eq!((shown[0].name.as_str(), shown[0].role.as_str()), ("Chopin", "composer"));
    assert_eq!((shown[0].catalog_number.as_str(), shown[0].recognized), ("B. 107", true));
    assert_eq!((shown[0].more_numbers.as_str(), shown[0].more.as_str()), ("1", "2"));
    assert_eq!(shown[0].message, "A hidden field is incomplete. Open the work to fix it.");
    assert_eq!((shown[1].id.as_str(), shown[1].name.as_str(), shown[1].more.as_str()), ("", "", ""));
    assert_eq!(shown[1].message, "");
}

fn tagged_item(id: i64, title: &str) -> Tagged {
    Tagged {
        library_id: 2,
        id,
        title: title.into(),
        contributors: vec![Contributor {
            person_id: 1,
            name: "N".into(),
            role: "composer".into(),
        }],
        stars: Some(3),
        tags: vec!["baroque".into()],
    }
}

#[test]
fn a_tag_page_lists_its_entries_by_title() {
    assert!(tagged(vec![], vec![]).is_none());
    let entries = tagged(
        vec![tagged_item(1, "Suites"), tagged_item(2, "Anthology")],
        vec![tagged_item(3, "Gigue"), tagged_item(4, "Anthology")],
    )
    .unwrap();
    let shown: Vec<(&str, &str, &str)> = entries
        .iter()
        .map(|e| (e.kind, e.title.as_str(), e.href.as_str()))
        .collect();
    assert_eq!(
        shown,
        vec![
            ("publication", "Anthology", "/library/2/publication/2"),
            ("work", "Anthology", "/library/2/work/4"),
            ("work", "Gigue", "/library/2/work/3"),
            ("publication", "Suites", "/library/2/publication/1"),
        ]
    );
    assert_eq!(entries[0].stars, Some(3));
}
