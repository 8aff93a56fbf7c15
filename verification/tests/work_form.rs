use scorarium::db::person::Contributor;
use scorarium::db::work::Work;
use scorarium::publication_form::ContributorRow;
use scorarium::work_form::{Errors, WorkForm, WorkUpdate};

fn contributor(name: &str, role: &str) -> ContributorRow {
    ContributorRow {
        name: name.into(),
        role: role.into(),
    }
}

#[test]
fn work_form_form_errors() {
    let form = WorkForm {
        title: String::new(),
        key: String::new(),
        time_signature: String::new(),
        instrumentation: String::new(),
        contributors: vec![
            contributor("Erik Satie", ""),
            contributor("Erik Satie", "composer"),
            contributor("Erik Satie", "composer"),
            contributor("", ""),
        ],
    };
    assert_eq!(
        form.parse().unwrap_err(),
        Errors {
            title: Some("A title is required.".into()),
            contributors: vec![
                Some("A role is required.".into()),
                None,
                Some("Already listed.".into()),
                Some("Fill this in or remove it.".into()),
            ],
        }
    );

    let form = WorkForm {
        title: "Gnossienne No. 1".into(),
        key: String::new(),
        time_signature: "3/4".into(),
        instrumentation: "piano".into(),
        contributors: vec![contributor("Erik Satie", "composer")],
    };
    assert_eq!(
        form.parse().unwrap(),
        WorkUpdate {
            title: "Gnossienne No. 1".into(),
            // An empty field is no value at all, not an empty one
            key: None,
            time_signature: Some("3/4".into()),
            instrumentation: Some("piano".into()),
            contributors: vec![contributor("Erik Satie", "composer")],
        }
    );
}

#[test]
fn a_stored_work_opens_as_typed() {
    let work = Work {
        id: 1,
        library_id: 1,
        title: "Gnossienne No. 1".into(),
        key: Some("F minor".into()),
        time_signature: None,
        instrumentation: Some("piano".into()),
        catalog_numbers: vec![],
        contributors: vec![Contributor {
            person_id: 4,
            name: "Erik Satie".into(),
            role: "composer".into(),
        }],
    };
    let form = WorkForm::stored(&work);
    assert_eq!(form.title, "Gnossienne No. 1");
    assert_eq!(form.key, "F minor");
    assert_eq!(form.time_signature, "");
    assert_eq!(form.instrumentation, "piano");
    assert_eq!(form.contributors, vec![contributor("Erik Satie", "composer")]);
}

#[test]
fn an_empty_errors_value_is_empty() {
    assert!(Errors::default().is_empty());
    let errors = Errors {
        title: None,
        contributors: vec![None, Some("A name is required.".into())],
    };
    assert!(!errors.is_empty());
}

#[test]
fn a_work_submission_becomes_a_trimmed_form() {
    let form = WorkForm::from_submission(scorarium::work_form::Submission {
        title: " Gnossienne No. 1 ".into(),
        key: "".into(),
        time_signature: " 3/4".into(),
        instrumentation: "piano ".into(),
        contributor_name: vec![" Erik Satie".into(), "Nobody".into()],
        contributor_role: vec!["composer ".into()],
    });
    assert_eq!(form.title, "Gnossienne No. 1");
    assert_eq!(form.time_signature, "3/4");
    assert_eq!(form.instrumentation, "piano");
    assert_eq!(form.contributors, vec![contributor("Erik Satie", "composer")]);
}
