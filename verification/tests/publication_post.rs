use scorarium::db::publication::HoldingKind;
use scorarium::publication_post::{contributors, holdings, lead_contributor, PublicationPost};
use scorarium::raw_input::{ContributorInput, HoldingRawInput, IdentifierRawInput, WorkRawInput};

fn contributor(name: &str, role: &str) -> ContributorInput {
    ContributorInput {
        name: name.into(),
        role: role.into(),
    }
}

/// A submission carrying nothing but its works, as (id, title, contributor name, role)
fn posted(works: &[(Option<i64>, &str, &str, &str)]) -> PublicationPost {
    PublicationPost {
        title: "Album".into(),
        publisher: String::new(),
        year: String::new(),
        holding_id: Vec::new(),
        holding_kind: vec![HoldingKind::Physical],
        holding_location: vec![String::new()],
        holding_file: vec![String::new()],
        identifier_kind: Vec::new(),
        identifier_value: Vec::new(),
        contributor_name: Vec::new(),
        contributor_role: Vec::new(),
        work_id: works
            .iter()
            .map(|(id, ..)| id.map(|id| id.to_string()).unwrap_or_default())
            .collect(),
        work_title: works
            .iter()
            .map(|(_, title, ..)| title.to_string())
            .collect(),
        work_contributor_name: works
            .iter()
            .map(|(_, _, name, _)| name.to_string())
            .collect(),
        work_contributor_role: works.iter().map(|(.., role)| role.to_string()).collect(),
        edit_work: None,
    }
}

/// A merged work as (id, title, key, [(contributor name, role)])
type WorkView<'a> = (Option<i64>, &'a str, &'a str, Vec<(&'a str, &'a str)>);

fn view(contents: &[WorkRawInput]) -> Vec<WorkView<'_>> {
    contents
        .iter()
        .map(|work| {
            let contributors = work
                .contributors
                .iter()
                .map(|c| (c.name.as_str(), c.role.as_str()))
                .collect();
            (
                work.id,
                work.title.as_str(),
                work.key.as_str(),
                contributors,
            )
        })
        .collect()
}

/// A publication shows one contributor per work, so merging has to leave everything else alone.
#[test]
fn merge_keeps_what_the_page_does_not_show() {
    let shown = vec![WorkRawInput {
        id: Some(1),
        title: "Prelude".into(),
        key: "E minor".into(),
        contributors: vec![
            contributor("Chopin", "composer"),
            contributor("Liszt", "arranger"),
        ],
        ..WorkRawInput::default()
    }];

    let merged =
        posted(&[(Some(1), "Prelude in E minor", "Chopin", "composer")]).merge(shown.clone());
    assert_eq!(
        view(&merged.contents),
        [(
            Some(1),
            "Prelude in E minor",
            "E minor",
            vec![("Chopin", "composer"), ("Liszt", "arranger")]
        )],
        "renaming leaves the key and the arranger the page never showed alone"
    );

    let merged = posted(&[(Some(1), "Prelude", "Liszt", "arranger")]).merge(shown.clone());
    assert_eq!(
        view(&merged.contents),
        [(Some(1), "Prelude", "E minor", vec![("Liszt", "arranger")])],
        "handing the work to a contributor it already credits replaces the lead in place"
    );

    let merged = posted(&[(Some(1), "Prelude", "", "")]).merge(shown.clone());
    assert_eq!(
        view(&merged.contents),
        [(Some(1), "Prelude", "E minor", vec![("Liszt", "arranger")])],
        "clearing the contributor removes the lead and promotes the next"
    );

    let merged = posted(&[
        (Some(1), "Prelude", "Chopin", "composer"),
        (None, "Nocturne", "Field", "composer"),
    ])
    .merge(shown.clone());
    assert_eq!(
        view(&merged.contents)[1],
        (None, "Nocturne", "", vec![("Field", "composer")]),
        "a posted work naming nothing is a new work"
    );

    let merged = posted(&[(None, "Mazurka", "", "")]).merge(shown);
    assert_eq!(
        view(&merged.contents),
        [(None, "Mazurka", "", vec![])],
        "a work the submission no longer lists is dropped, and an empty contributor adds none"
    );
}

#[test]
fn publication_post_lead_contributor_prefers_composer_then_author() {
    let composer = [contributor("A", "arranger"), contributor("B", "composer")];
    assert_eq!(lead_contributor(&composer), Some(1));
    let author = [contributor("A", "editor"), contributor("B", "author")];
    assert_eq!(lead_contributor(&author), Some(1));
    let neither = [contributor("A", "editor"), contributor("B", "arranger")];
    assert_eq!(lead_contributor(&neither), Some(0));
    assert_eq!(lead_contributor(&[]), None);
}

#[test]
fn merge_trims_the_publication_fields() {
    let mut post = posted(&[]);
    post.title = " Album ".into();
    post.year = " 1888 ".into();
    post.identifier_kind = vec![" isbn".into()];
    post.identifier_value = vec!["0-486-23134-8 ".into(), "extra".into()];
    post.contributor_name = vec![" Erik Satie ".into()];
    post.contributor_role = vec!["composer".into()];
    post.holding_id = vec!["4".into()];
    post.holding_kind = vec![HoldingKind::Digital];
    post.holding_location = vec!["Bench".into()];
    post.holding_file = vec![" satie.pdf ".into()];
    let merged = post.merge(Vec::new());
    assert_eq!(merged.title, "Album");
    assert_eq!(merged.year, "1888");
    assert_eq!(
        merged.identifiers,
        vec![IdentifierRawInput {
            kind: "isbn".into(),
            value: "0-486-23134-8".into()
        }]
    );
    assert_eq!(merged.contributors, vec![contributor("Erik Satie", "composer")]);
    assert_eq!(
        merged.holdings,
        vec![HoldingRawInput {
            id: Some(4),
            kind: HoldingKind::Digital,
            location: "satie.pdf".into()
        }]
    );
    assert!(merged.links.is_empty());
    assert!(merged.contents.is_empty());
}

#[test]
fn an_unknown_id_names_no_shown_work() {
    let shown = vec![WorkRawInput {
        id: Some(1),
        title: "Prelude".into(),
        ..WorkRawInput::default()
    }];
    let merged = posted(&[(Some(2), "Etude", "", "")]).merge(shown);
    assert_eq!(view(&merged.contents), [(None, "Etude", "", vec![])]);
}

#[test]
fn the_clicked_edit_button_is_read_as_an_index() {
    let mut post = posted(&[]);
    assert_eq!(post.edit_work(), None);
    post.edit_work = Some(" 2 ".into());
    assert_eq!(post.edit_work(), Some(2));
    post.edit_work = Some("-1".into());
    assert_eq!(post.edit_work(), None);
    post.edit_work = Some("+3".into());
    assert_eq!(post.edit_work(), Some(3));
}

#[test]
fn copies_take_the_field_their_kind_picks() {
    let copies = holdings(
        vec!["7".into()],
        vec![HoldingKind::Physical, HoldingKind::Digital],
        vec![" Shelf ".into(), "ignored".into()],
        vec!["ignored".into(), " b.pdf ".into()],
    );
    assert_eq!(
        copies,
        vec![
            HoldingRawInput {
                id: Some(7),
                kind: HoldingKind::Physical,
                location: "Shelf".into()
            },
            HoldingRawInput {
                id: None,
                kind: HoldingKind::Digital,
                location: "b.pdf".into()
            },
        ]
    );
    assert_eq!(
        contributors(vec![" A ".into()], vec![" composer ".into(), "x".into()]),
        vec![contributor("A", "composer")]
    );
}
