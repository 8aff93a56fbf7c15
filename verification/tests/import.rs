use scorarium::db::pending_import::{PendingHolding, PendingImport};
use scorarium::db::publication::HoldingKind;
use scorarium::import::{Draft, DraftStore, DraftWork};
use scorarium::publication_form::{ContributorRow, HoldingRow, IdentifierRow, PublicationForm, WorkRow};
use scorarium::work_form::WorkForm;

fn contributor(name: &str, role: &str) -> ContributorRow {
    ContributorRow {
        name: name.into(),
        role: role.into(),
    }
}

fn work_row(id: Option<i64>, title: &str, name: &str, role: &str) -> WorkRow {
    WorkRow {
        id,
        title: title.into(),
        contributor: contributor(name, role),
    }
}

/// A submission of the review page's form, carrying nothing but its work rows.
fn submitted(works: Vec<WorkRow>) -> PublicationForm {
    PublicationForm {
        title: "Album".into(),
        publisher: String::new(),
        year: String::new(),
        holdings: vec![HoldingRow {
            id: None,
            kind: HoldingKind::Physical,
            location: String::new(),
        }],
        identifiers: Vec::new(),
        contributors: Vec::new(),
        works,
    }
}

/// A draft work as (id, title, key, [(contributor name, role)])
type WorkView<'a> = (i64, &'a str, &'a str, Vec<(&'a str, &'a str)>);

fn works(draft: &Draft) -> Vec<WorkView<'_>> {
    draft
        .works
        .iter()
        .map(|work| {
            let contributors = work
                .form
                .contributors
                .iter()
                .map(|c| (c.name.as_str(), c.role.as_str()))
                .collect();
            (
                work.id,
                work.form.title.as_str(),
                work.form.key.as_str(),
                contributors,
            )
        })
        .collect()
}

/// A row edits the work it names without disturbing what the row does not show, and the rows
/// the review page renders next are derived from the works that result.
#[test]
fn merge_keeps_depth() {
    let mut draft = Draft {
        form: submitted(Vec::new()),
        works: vec![DraftWork {
            id: 1,
            form: WorkForm {
                title: "Prelude".into(),
                key: "E minor".into(),
                time_signature: String::new(),
                instrumentation: String::new(),
                contributors: vec![
                    contributor("Chopin", "composer"),
                    contributor("Liszt", "arranger"),
                ],
            },
        }],
        next_id: 2,
    };

    // Renaming the work, leaving its lead alone
    draft.merge(submitted(vec![work_row(
        Some(1),
        "Prelude in E minor",
        "Chopin",
        "composer",
    )]));
    assert_eq!(
        works(&draft),
        [(
            1,
            "Prelude in E minor",
            "E minor",
            vec![("Chopin", "composer"), ("Liszt", "arranger")]
        )],
        "the key and the arranger the row does not show survive"
    );

    // Handing the row to the arranger it already credits
    draft.merge(submitted(vec![work_row(
        Some(1),
        "Prelude in E minor",
        "Liszt",
        "arranger",
    )]));
    assert_eq!(
        works(&draft),
        [(
            1,
            "Prelude in E minor",
            "E minor",
            vec![("Liszt", "arranger")]
        )],
        "the lead is replaced in place, not duplicated"
    );

    // A row naming no work adds one
    draft.merge(submitted(vec![
        work_row(Some(1), "Prelude in E minor", "Liszt", "arranger"),
        work_row(None, "Nocturne", "Field", "composer"),
    ]));
    assert_eq!(
        works(&draft),
        [
            (
                1,
                "Prelude in E minor",
                "E minor",
                vec![("Liszt", "arranger")]
            ),
            (2, "Nocturne", "", vec![("Field", "composer")]),
        ]
    );
    assert_eq!(
        draft.form.works,
        [
            work_row(Some(1), "Prelude in E minor", "Liszt", "arranger"),
            work_row(Some(2), "Nocturne", "Field", "composer"),
        ],
        "the rows the page renders next name the works they came from"
    );

    // A work no row names is dropped, and its id is not handed to the next work added
    draft.merge(submitted(vec![
        work_row(Some(2), "Nocturne", "Field", "composer"),
        work_row(None, "Mazurka", "", ""),
    ]));
    assert_eq!(
        works(&draft),
        [
            (2, "Nocturne", "", vec![("Field", "composer")]),
            (3, "Mazurka", "", vec![]),
        ]
    );
}

#[test]
fn merged_work_ids_stay_unique() {
    let mut draft = Draft {
        form: submitted(Vec::new()),
        works: Vec::new(),
        next_id: 1,
    };
    draft.merge(submitted(vec![
        work_row(None, "A", "", ""),
        work_row(Some(7), "B", "", ""),
        work_row(None, "C", "", ""),
    ]));
    let ids: Vec<i64> = draft.works.iter().map(|w| w.id).collect();
    assert_eq!(ids, vec![1, 2, 3]);
    assert_eq!(draft.next_id, 4);
    // Naming the same work twice hands it to the first row only
    draft.merge(submitted(vec![work_row(Some(2), "B", "", ""), work_row(Some(2), "B again", "", "")]));
    let ids: Vec<i64> = draft.works.iter().map(|w| w.id).collect();
    assert_eq!(ids, vec![2, 4]);
}

fn pending(query: &str) -> PendingImport {
    PendingImport {
        id: 1,
        library_id: 2,
        library_name: "Scores".into(),
        query: query.into(),
        holdings: vec![PendingHolding {
            kind: HoldingKind::Digital,
            location: Some("satie.pdf".into()),
        }],
        created_at: 0,
    }
}

#[test]
fn a_query_seeds_an_identifier_or_a_title() {
    let form = PublicationForm::seed(&pending(" 0-486-23134-8 "));
    assert_eq!(form.title, "");
    assert_eq!(
        form.identifiers,
        vec![IdentifierRow {
            kind: "isbn".into(),
            value: "978-0-486-23134-1".into()
        }]
    );
    assert_eq!(
        form.holdings,
        vec![HoldingRow {
            id: None,
            kind: HoldingKind::Digital,
            location: "satie.pdf".into()
        }]
    );
    let form = PublicationForm::seed(&pending("M-060-08002-9"));
    assert_eq!(form.identifiers[0].kind, "ismn");
    let form = PublicationForm::seed(&pending(" Gnossiennes "));
    assert_eq!(form.title, "Gnossiennes");
    assert!(form.identifiers.is_empty());
    let draft = Draft::seed(&pending("Gnossiennes"));
    assert!(draft.works.is_empty());
    assert_eq!(draft.next_id, 1);
}

#[test]
fn a_draft_with_a_broken_work_explains_it_on_its_row() {
    let draft = Draft {
        form: PublicationForm {
            works: vec![work_row(Some(1), "Prelude", "Chopin", "composer")],
            ..submitted(Vec::new())
        },
        works: vec![DraftWork {
            id: 1,
            form: WorkForm {
                title: "Prelude".into(),
                key: String::new(),
                time_signature: String::new(),
                instrumentation: String::new(),
                contributors: vec![contributor("Chopin", "composer"), contributor("Liszt", "")],
            },
        }],
        next_id: 2,
    };
    let errors = draft.parse().unwrap_err();
    assert_eq!(
        errors.works,
        vec![Some("A contributor is incomplete. Open the work to fix it.".to_string())]
    );
}

#[test]
fn a_draft_store_reads_back_what_was_saved() {
    let mut store = DraftStore::default();
    assert!(store.get(1).is_none());
    store.save(1, Draft::seed(&pending("Gnossiennes")));
    store.save(2, Draft::seed(&pending("Nocturnes")));
    assert_eq!(store.get(1).unwrap().form.title, "Gnossiennes");
    assert_eq!(store.get(2).unwrap().form.title, "Nocturnes");
    store.remove(1);
    assert!(store.get(1).is_none());
    assert!(store.get(2).is_some());
}
