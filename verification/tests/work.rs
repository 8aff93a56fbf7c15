use scorarium::db::person::Contributor;
use scorarium::db::work::{lead_contributor, Work};
use scorarium::db::{lead_edit, reconcile, LeadEdit};

fn contributor(person_id: i64, role: &str) -> Contributor {
    Contributor {
        person_id,
        name: format!("Person {person_id}"),
        role: role.into(),
    }
}

#[test]
fn work_lead_contributor_prefers_composer_then_author() {
    let composer = [contributor(1, "arranger"), contributor(2, "composer")];
    assert_eq!(lead_contributor(&composer), Some(1));
    let author = [contributor(1, "editor"), contributor(2, "author")];
    assert_eq!(lead_contributor(&author), Some(1));
    let neither = [contributor(1, "editor"), contributor(2, "arranger")];
    assert_eq!(lead_contributor(&neither), Some(0));
    assert_eq!(lead_contributor(&[]), None);
}

#[test]
fn a_composer_leads_an_author() {
    let both = [contributor(1, "author"), contributor(2, "composer")];
    assert_eq!(lead_contributor(&both), Some(1));
    let two = [contributor(1, "composer"), contributor(2, "composer")];
    assert_eq!(lead_contributor(&two), Some(0));
}

#[test]
fn roles_are_listed_by_role_and_person() {
    let work = Work {
        id: 1,
        library_id: 1,
        title: "Prelude".into(),
        key: None,
        time_signature: None,
        instrumentation: None,
        catalog_numbers: vec![],
        contributors: vec![
            contributor(1, "composer"),
            contributor(2, "arranger"),
            contributor(1, "editor"),
        ],
    };
    assert_eq!(work.roles_of(1), vec!["composer", "editor"]);
    assert_eq!(work.roles_of(3), Vec::<&str>::new());
    let arrangers: Vec<i64> = work.with_role("arranger").iter().map(|c| c.person_id).collect();
    assert_eq!(arrangers, vec![2]);
}

#[test]
fn saving_rows_removes_what_they_no_longer_name() {
    let (removed, edits) = reconcile(&[3, 5, 8], &[Some(5), None, Some(9), Some(3)]);
    assert_eq!(removed, vec![8]);
    // An id naming no stored record is taken as a new one
    assert_eq!(edits, vec![Some(5), None, None, Some(3)]);
    let (removed, edits) = reconcile(&[], &[Some(1)]);
    assert!(removed.is_empty());
    assert_eq!(edits, vec![None]);
}

fn credit(name: &str, role: &str) -> Contributor {
    Contributor {
        person_id: 0,
        name: name.into(),
        role: role.into(),
    }
}

#[test]
fn saving_a_row_edits_only_the_lead() {
    let credits = [credit("Chopin", "composer"), credit("Liszt", "arranger")];
    assert_eq!(lead_edit(&credits, "Chopin", "composer"), LeadEdit::Keep);
    assert_eq!(lead_edit(&credits, "Liszt", "arranger"), LeadEdit::Edit(0));
    assert_eq!(lead_edit(&credits, "", ""), LeadEdit::Remove(0));
    assert_eq!(lead_edit(&[], "Field", "composer"), LeadEdit::Add);
    assert_eq!(lead_edit(&[], "", ""), LeadEdit::Keep);
    let arranged = [credit("Liszt", "arranger"), credit("Busoni", "editor")];
    assert_eq!(lead_edit(&arranged, "Busoni", "editor"), LeadEdit::Edit(0));
}

#[test]
fn rows_are_handed_to_their_parents_in_order() {
    let groups = scorarium::db::group_by_parent(
        &vec![10, 20, 30],
        vec![(20, "a"), (10, "b"), (20, "c")],
    );
    assert_eq!(groups, vec![vec!["b"], vec!["a", "c"], vec![]]);
}

#[test]
fn works_are_read_back_with_their_children() {
    let bare = |id: i64, title: &str| Work {
        id,
        library_id: 1,
        title: title.into(),
        key: None,
        time_signature: None,
        instrumentation: None,
        catalog_numbers: vec![],
        contributors: vec![],
    };
    let works = scorarium::db::work::assemble(
        vec![bare(1, "Prelude"), bare(2, "Etude")],
        vec![(2, "Op. 10 No. 1".to_string()), (1, "Op. 28 No. 4".to_string())],
        vec![(1, contributor(5, "composer")), (1, contributor(6, "arranger"))],
    );
    assert_eq!(works[0].title, "Prelude");
    assert_eq!(works[0].catalog_numbers, vec!["Op. 28 No. 4".to_string()]);
    assert_eq!(works[0].contributors.len(), 2);
    assert_eq!(works[0].contributors[1].role, "arranger");
    assert_eq!(works[1].catalog_numbers, vec!["Op. 10 No. 1".to_string()]);
    assert!(works[1].contributors.is_empty());
}

#[test]
fn a_repeated_parent_id_hands_its_rows_to_the_later_one() {
    let groups = scorarium::db::group_by_parent(&vec![1, 2, 1], vec![(1, 'a'), (2, 'b'), (1, 'c')]);
    assert_eq!(groups, vec![vec![], vec!['b'], vec!['a', 'c']]);
}
