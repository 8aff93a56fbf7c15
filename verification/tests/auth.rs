use scorarium::auth::{password_check, PasswordCheck, Verification};

#[test]
fn password_checks() {
    assert_eq!(password_check(None), Some(PasswordCheck::Unclaimed));
    assert_eq!(password_check(Some(Verification::Matched)), Some(PasswordCheck::Correct));
    assert_eq!(password_check(Some(Verification::Mismatched)), Some(PasswordCheck::Wrong));
    assert_eq!(password_check(Some(Verification::Failed)), None);
}
